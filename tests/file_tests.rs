use son::deserialize::{object_fields, take_field};
use son::error::ParseStep;
use son::{DeserializationError, Deserialize, FromSon, ParseError, Value};

#[derive(Debug, Clone, PartialEq)]
struct User {
    name: String,
    age: i32,
}

impl FromSon for User {
    fn from_son(son: Value) -> Result<Self, DeserializationError> {
        let mut map = object_fields(son)?;
        let name = take_field::<String>(&mut map, "name")?;
        let age = take_field::<i32>(&mut map, "age")?;
        Ok(User { name, age })
    }
}

impl Deserialize for User {}

#[derive(Debug, Clone, PartialEq)]
struct Arrays {
    numbers: Vec<i32>,
    strings: Vec<String>,
    booleans: Vec<bool>,
    mixed_commas: Vec<i32>,
}

impl FromSon for Arrays {
    fn from_son(son: Value) -> Result<Self, DeserializationError> {
        let mut map = object_fields(son)?;
        let numbers = take_field::<Vec<i32>>(&mut map, "numbers")?;
        let strings = take_field::<Vec<String>>(&mut map, "strings")?;
        let booleans = take_field::<Vec<bool>>(&mut map, "booleans")?;
        let mixed_commas = take_field::<Vec<i32>>(&mut map, "mixed_commas")?;
        Ok(Arrays { numbers, strings, booleans, mixed_commas })
    }
}

impl Deserialize for Arrays {}

#[derive(Debug, Clone, PartialEq)]
struct AgeAndInitial {
    initial: char,
    age: i32,
}

impl FromSon for AgeAndInitial {
    fn from_son(son: Value) -> Result<Self, DeserializationError> {
        let mut map = object_fields(son)?;
        let initial = take_field::<char>(&mut map, "initial")?;
        let age = take_field::<i32>(&mut map, "age")?;
        Ok(AgeAndInitial { initial, age })
    }
}

impl Deserialize for AgeAndInitial {}

const INVALID_DOUBLE_QUOTE_CHAR: &str = "{\n    initial: \"A\"\n    age: 30\n}\n";
const INVALID_DUPLICATE_KEYS: &str = "{\n    name: \"Alice\",\n    name: \"Bob\",\n    age: 30\n}\n";
const INVALID_EMPTY_FILE: &str = "";
const INVALID_MISSING_BRACE: &str = "{\n    name: \"Alice\",\n    age: 30\n";
const INVALID_MISSING_CLOSING_BRACE: &str =
    "{\n    numbers: [1, 2, 3, 4, 5\n    strings: [\"hello\", \"world\"]\n    booleans: [true]\n    mixed_commas: [1]\n}\n";
const INVALID_MISSING_COLON: &str = "{\n    name \"Alice\"\n    age: 30\n}\n";
const INVALID_MISSING_VALUE: &str = "{\n    name: ,\n    age: 30\n}\n";
const INVALID_MIXED_TYPES_ARRAY: &str = "[1, \"two\", 3, true]\n";
const INVALID_MULTIPLE_CHARS: &str = "{\n    initial: 'AB'\n    age: 30\n}\n";
const INVALID_ONLY_WHITESPACES: &str = "   \n\t  \r\n    \n";
const INVALID_SINGLE_QUOTE_STRING: &str = "{\n    name: 'Alice'\n    age: 30\n}\n";
const INVALID_UNQUOTED_STRING: &str = "{\n    name: Alice\n    age: 30\n}\n";
const INVALID_INCORRECT_START: &str = "name: \"Alice\"\nage: 30\n";
const INVALID_UNEXPECTED_EOF_VALUE: &str = "{\n    name: \"Alice\"\n    age:";
const INVALID_UNEXPECTED_TOKEN_ON_OBJECT_IDENTIFIER: &str = "{\n    123: \"Alice\"\n}\n";

#[test]
fn test_invalid_missing_brace() {
    let result = son::from_str::<User>(INVALID_MISSING_BRACE);
    assert!(result.is_err(), "Expected error but got {:?}", result);
    let error = result.err().unwrap();
    match error {
        son::Error::ParseError(parse_error) => match parse_error {
            ParseError::UnexpectedEOF(_) => assert!(true),
            _ => panic!("Expected ParseError::UnexpectedEOF but got {:?}", parse_error),
        },
        _ => panic!("Expected ParseError but got {:?}", error),
    }
}

#[test]
fn test_invalid_missing_closing_brace() {
    let result = son::from_str::<Arrays>(INVALID_MISSING_CLOSING_BRACE);
    assert!(result.is_err(), "Expected error but got {:?}", result);
    let error = result.err().unwrap();
    match error {
        son::Error::ParseError(parse_error) => match parse_error {
            ParseError::UnexpectedEOF(_) => assert!(true),
            ParseError::UnexpectedToken { .. } => assert!(true),
            _ => panic!(
                "Expected ParseError::UnexpectedEOF or UnexpectedToken but got {:?}",
                parse_error
            ),
        },
        _ => panic!("Expected ParseError but got {:?}", error),
    }
}

#[test]
fn test_invalid_missing_colon() {
    let result = son::from_str::<User>(INVALID_MISSING_COLON);
    assert!(result.is_err(), "Expected error but got {:?}", result);
    let error = result.err().unwrap();
    match error {
        son::Error::ParseError(parse_error) => match parse_error {
            ParseError::UnexpectedToken { .. } => assert!(true),
            _ => panic!("Expected ParseError::UnexpectedToken but got {:?}", parse_error),
        },
        _ => panic!("Expected ParseError but got {:?}", error),
    }
}

#[test]
fn test_invalid_missing_value() {
    let result = son::from_str::<User>(INVALID_MISSING_VALUE);
    assert!(result.is_err(), "Expected error but got {:?}", result);
    let error = result.err().unwrap();
    match error {
        son::Error::ParseError(parse_error) => match parse_error {
            ParseError::UnexpectedToken { .. } => assert!(true),
            ParseError::UnexpectedEOF(_) => assert!(true),
            _ => panic!(
                "Expected ParseError::UnexpectedToken or UnexpectedEOF but got {:?}",
                parse_error
            ),
        },
        _ => panic!("Expected ParseError but got {:?}", error),
    }
}

#[test]
fn test_invalid_unquoted_string() {
    let result = son::from_str::<User>(INVALID_UNQUOTED_STRING);
    assert!(result.is_err(), "Expected error but got {:?}", result);
    let error = result.err().unwrap();
    match error {
        son::Error::DeserializationError(deserialization_error) => match deserialization_error {
            DeserializationError::UnexpectedType { expected, found } => {
                assert_eq!(expected, "String");
                assert_eq!(found, "Enum");
            }
            _ => panic!("Expected UnexpectedType error but got {:?}", deserialization_error),
        },
        _ => panic!("Expected DeserializationError but got {:?}", error),
    }
}

#[test]
fn test_invalid_single_quote_string() {
    let result = son::from_str::<User>(INVALID_SINGLE_QUOTE_STRING);
    assert!(result.is_err(), "Expected error but got {:?}", result);
    let error = result.err().unwrap();
    match error {
        son::Error::ParseError(parse_error) => match parse_error {
            ParseError::ErrorToken(_, _) => assert!(true),
            _ => panic!("Expected ParseError::ErrorToken but got {:?}", parse_error),
        },
        son::Error::DeserializationError(deserialization_error) => match deserialization_error {
            DeserializationError::UnexpectedType { .. } => assert!(true),
            _ => panic!(
                "Expected DeserializationError::UnexpectedType but got {:?}",
                deserialization_error
            ),
        },
        _ => panic!("Expected ParseError or DeserializationError but got {:?}", error),
    }
}

#[test]
fn test_invalid_double_quote_char() {
    let result = son::from_str::<AgeAndInitial>(INVALID_DOUBLE_QUOTE_CHAR);
    assert!(result.is_err(), "Expected error but got {:?}", result);
    let error = result.err().unwrap();
    match error {
        son::Error::DeserializationError(deserialization_error) => match deserialization_error {
            DeserializationError::UnexpectedType { .. } => assert!(true),
            _ => panic!(
                "Expected DeserializationError::UnexpectedType but got {:?}",
                deserialization_error
            ),
        },
        _ => panic!("Expected DeserializationError but got {:?}", error),
    }
}

#[test]
fn test_invalid_multiple_chars() {
    let result = son::from_str::<AgeAndInitial>(INVALID_MULTIPLE_CHARS);
    assert!(result.is_err(), "Expected error but got {:?}", result);
    let error = result.err().unwrap();
    match error {
        son::Error::ParseError(parse_error) => match parse_error {
            ParseError::ErrorToken(_, _) => assert!(true),
            _ => panic!("Expected ParseError::ErrorToken but got {:?}", parse_error),
        },
        _ => panic!("Expected ParseError but got {:?}", error),
    }
}

#[test]
fn test_invalid_mixed_types_array() {
    let result = son::from_str::<Vec<u32>>(INVALID_MIXED_TYPES_ARRAY);
    assert!(result.is_err(), "Expected error but got {:?}", result);
    let error = result.err().unwrap();
    match error {
        son::Error::DeserializationError(deserialization_error) => match deserialization_error {
            DeserializationError::UnexpectedType { .. } => assert!(true),
            DeserializationError::InvalidValue { .. } => assert!(true),
            _ => panic!(
                "Expected DeserializationError::UnexpectedType or InvalidValue but got {:?}",
                deserialization_error
            ),
        },
        _ => panic!("Expected DeserializationError but got {:?}", error),
    }
}

#[test]
fn test_invalid_duplicate_keys() {
    let result = son::from_str::<User>(INVALID_DUPLICATE_KEYS);
    if result.is_ok() {
        let user = result.unwrap();
        assert_eq!(user.name, "Bob");
    } else {
        let error = result.err().unwrap();
        match error {
            son::Error::ParseError(parse_error) => match parse_error {
                ParseError::UnexpectedToken { .. } => assert!(true),
                _ => panic!("Expected ParseError::UnexpectedToken but got {:?}", parse_error),
            },
            son::Error::DeserializationError(deserialization_error) => match deserialization_error {
                DeserializationError::Custom(_) => assert!(true),
                _ => panic!(
                    "Expected DeserializationError::Custom but got {:?}",
                    deserialization_error
                ),
            },
            _ => panic!("Expected ParseError or DeserializationError but got {:?}", error),
        }
    }
}

#[test]
fn test_invalid_empty_file() {
    let result = son::from_str::<User>(INVALID_EMPTY_FILE);
    assert!(result.is_err(), "Expected error but got {:?}", result);
    let error = result.err().unwrap();
    match error {
        son::Error::ParseError(parse_error) => match parse_error {
            ParseError::UnexpectedEOF(_) => assert!(true),
            _ => panic!("Expected ParseError::UnexpectedEOF but got {:?}", parse_error),
        },
        son::Error::IOError(_) => assert!(true),
        _ => panic!("Expected ParseError or IOError but got {:?}", error),
    }
}

#[test]
fn test_invalid_only_whitespaces() {
    let result = son::from_str::<User>(INVALID_ONLY_WHITESPACES);
    assert!(result.is_err(), "Expected error but got {:?}", result);
    let error = result.err().unwrap();
    match error {
        son::Error::ParseError(parse_error) => match parse_error {
            ParseError::UnexpectedEOF(_) => assert!(true),
            _ => panic!("Expected ParseError::UnexpectedEOF but got {:?}", parse_error),
        },
        _ => panic!("Expected ParseError but got {:?}", error),
    }
}

#[test]
fn test_invalid_incorrect_start() {
    let result = son::from_str::<User>(INVALID_INCORRECT_START);
    assert!(result.is_err(), "Expected error but got {:?}", result);
    let error = result.err().unwrap();
    match error {
        son::Error::ParseError(parse_error) => match parse_error {
            ParseError::UnexpectedToken { step, .. } => assert_eq!(step, ParseStep::Start),
            _ => panic!("Expected ParseError::UnexpectedToken but got {:?}", parse_error),
        },
        _ => panic!("Expected ParseError but got {:?}", error),
    }
}

#[test]
fn test_invalid_unexpected_eof_value() {
    let result = son::from_str::<User>(INVALID_UNEXPECTED_EOF_VALUE);
    assert!(result.is_err(), "Expected error but got {:?}", result);
    let error = result.err().unwrap();
    match error {
        son::Error::ParseError(parse_error) => match parse_error {
            ParseError::UnexpectedEOF(_) => assert!(true),
            _ => panic!("Expected ParseError::UnexpectedEOF but got {:?}", parse_error),
        },
        _ => panic!("Expected ParseError but got {:?}", error),
    }
}

#[test]
fn test_invalid_unexpected_token_on_object_identifier() {
    let result = son::from_str::<User>(INVALID_UNEXPECTED_TOKEN_ON_OBJECT_IDENTIFIER);
    assert!(result.is_err(), "Expected error but got {:?}", result);
    let error = result.err().unwrap();
    match error {
        son::Error::ParseError(parse_error) => match parse_error {
            ParseError::UnexpectedToken { .. } => assert!(true),
            _ => panic!("Expected ParseError::UnexpectedToken but got {:?}", parse_error),
        },
        _ => panic!("Expected ParseError but got {:?}", error),
    }
}
