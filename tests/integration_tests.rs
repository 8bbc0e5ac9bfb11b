use son::deserialize::{default_error, object_fields, take_field, variant_index};
use son::serialize::object_of;
use son::{Decimal, DeserializationError, Deserialize, FromSon, Serialize, ToSon, Value};
use std::collections::HashMap;

// Floats are carried in the value tree as decimal text; these helpers turn
// them into machine floats the way an application does.

fn f64_to_son(x: f64) -> Value {
    Value::Float(Decimal { negative: x < 0.0, digits: format!("{}", x.abs()) })
}

fn f64_from_son(son: Value) -> Result<f64, DeserializationError> {
    match son {
        Value::Integer(i) => Ok(i as f64),
        Value::Float(d) => {
            let x: f64 = d.digits.parse().unwrap();
            Ok(if d.negative { -x } else { x })
        }
        _ => Err(default_error("Integer", &son)),
    }
}

fn f32_to_son(x: f32) -> Value {
    Value::Float(Decimal { negative: x < 0.0, digits: format!("{}", x.abs()) })
}

fn f32_from_son(son: Value) -> Result<f32, DeserializationError> {
    match son {
        Value::Integer(i) => Ok(i as f32),
        Value::Float(d) => {
            let x: f32 = d.digits.parse().unwrap();
            Ok(if d.negative { -x } else { x })
        }
        _ => Err(default_error("Integer", &son)),
    }
}

fn fields(entries: Vec<(&str, Value)>) -> Value {
    Value::Object(entries.into_iter().map(|(k, v)| (k.to_string(), v)).collect())
}

#[derive(Debug, Clone, PartialEq)]
enum PhoneType {
    Home,
    Office,
}

impl FromSon for PhoneType {
    fn from_son(son: Value) -> Result<Self, DeserializationError> {
        match variant_index(son, &["Home", "Office"], "PhoneType")? {
            0 => Ok(PhoneType::Home),
            _ => Ok(PhoneType::Office),
        }
    }
}

impl Deserialize for PhoneType {}

impl ToSon for PhoneType {
    fn to_son(&self) -> Value {
        match self {
            PhoneType::Home => Value::Enum("Home".to_string()),
            PhoneType::Office => Value::Enum("Office".to_string()),
        }
    }
}

impl Serialize for PhoneType {}

#[derive(Debug, Clone, PartialEq)]
struct Address {
    street_address: String,
    city: String,
    state: String,
    postal_code: String,
    latitude: f64,
}

impl FromSon for Address {
    fn from_son(son: Value) -> Result<Self, DeserializationError> {
        let mut map = object_fields(son)?;
        Ok(Address {
            street_address: take_field(&mut map, "street_address")?,
            city: take_field(&mut map, "city")?,
            state: take_field(&mut map, "state")?,
            postal_code: take_field(&mut map, "postal_code")?,
            latitude: f64_from_son(take_field::<Value>(&mut map, "latitude")?)?,
        })
    }
}

impl Deserialize for Address {}

impl ToSon for Address {
    fn to_son(&self) -> Value {
        fields(vec![
            ("street_address", self.street_address.to_son()),
            ("city", self.city.to_son()),
            ("state", self.state.to_son()),
            ("postal_code", self.postal_code.to_son()),
            ("latitude", f64_to_son(self.latitude)),
        ])
    }
}

impl Serialize for Address {}

#[derive(Debug, Clone, PartialEq)]
struct PhoneNumber {
    ty: PhoneType,
    number: String,
}

impl FromSon for PhoneNumber {
    fn from_son(son: Value) -> Result<Self, DeserializationError> {
        let mut map = object_fields(son)?;
        Ok(PhoneNumber { ty: take_field(&mut map, "ty")?, number: take_field(&mut map, "number")? })
    }
}

impl Deserialize for PhoneNumber {}

impl ToSon for PhoneNumber {
    fn to_son(&self) -> Value {
        fields(vec![("ty", self.ty.to_son()), ("number", self.number.to_son())])
    }
}

impl Serialize for PhoneNumber {}

#[derive(Debug, Clone, PartialEq)]
struct Client {
    first_name: String,
    last_name: String,
    age: i32,
    is_alive: bool,
    is_retired: bool,
    initial: char,
    address: Address,
    phone_numbers: Vec<PhoneNumber>,
}

impl FromSon for Client {
    fn from_son(son: Value) -> Result<Self, DeserializationError> {
        let mut map = object_fields(son)?;
        Ok(Client {
            first_name: take_field(&mut map, "first_name")?,
            last_name: take_field(&mut map, "last_name")?,
            age: take_field(&mut map, "age")?,
            is_alive: take_field(&mut map, "is_alive")?,
            is_retired: take_field(&mut map, "is_retired")?,
            initial: take_field(&mut map, "initial")?,
            address: take_field(&mut map, "address")?,
            phone_numbers: take_field(&mut map, "phone_numbers")?,
        })
    }
}

impl Deserialize for Client {}

impl ToSon for Client {
    fn to_son(&self) -> Value {
        fields(vec![
            ("first_name", self.first_name.to_son()),
            ("last_name", self.last_name.to_son()),
            ("age", self.age.to_son()),
            ("is_alive", self.is_alive.to_son()),
            ("is_retired", self.is_retired.to_son()),
            ("initial", self.initial.to_son()),
            ("address", self.address.to_son()),
            ("phone_numbers", self.phone_numbers.to_son()),
        ])
    }
}

impl Serialize for Client {}

#[derive(Debug, Clone, PartialEq)]
struct TestPhoneType {
    phone_type: PhoneType,
}

impl FromSon for TestPhoneType {
    fn from_son(son: Value) -> Result<Self, DeserializationError> {
        let mut map = object_fields(son)?;
        Ok(TestPhoneType { phone_type: take_field(&mut map, "phone_type")? })
    }
}

impl Deserialize for TestPhoneType {}

impl ToSon for TestPhoneType {
    fn to_son(&self) -> Value {
        fields(vec![("phone_type", self.phone_type.to_son())])
    }
}

impl Serialize for TestPhoneType {}

#[test]
fn test_vec_of_primitives_serialization_deserialization() {
    let data = vec!["string1".to_string(), "string2".to_string(), "string3".to_string()];
    let son_string = data.to_son().to_string();
    let deserialized_data: Vec<String> = son::from_str(&son_string).unwrap();
    assert_eq!(data, deserialized_data);

    let data = vec!['a', 'b', 'c'];
    let son_string = data.to_son().to_string();
    let deserialized_data: Vec<char> = son::from_str(&son_string).unwrap();
    assert_eq!(data, deserialized_data);

    let data = vec![true, false, true];
    let son_string = data.to_son().to_string();
    let deserialized_data: Vec<bool> = son::from_str(&son_string).unwrap();
    assert_eq!(data, deserialized_data);

    let data = vec![1.0f32, 2.0f32, 3.0f32];
    let son_string = Value::Array(data.iter().map(|x| f32_to_son(*x)).collect()).to_string();
    let deserialized_data: Vec<f32> = son::from_str::<Vec<Value>>(&son_string)
        .unwrap()
        .into_iter()
        .map(|v| f32_from_son(v).unwrap())
        .collect();
    assert_eq!(data, deserialized_data);

    let data = vec![1.0f64, 2.0f64, 3.0f64];
    let son_string = Value::Array(data.iter().map(|x| f64_to_son(*x)).collect()).to_string();
    let deserialized_data: Vec<f64> = son::from_str::<Vec<Value>>(&son_string)
        .unwrap()
        .into_iter()
        .map(|v| f64_from_son(v).unwrap())
        .collect();
    assert_eq!(data, deserialized_data);

    let data = vec![1i8, 2i8, 3i8];
    let son_string = data.to_son().to_string();
    let deserialized_data: Vec<i8> = son::from_str(&son_string).unwrap();
    assert_eq!(data, deserialized_data);

    let data = vec![1u8, 2u8, 3u8];
    let son_string = data.to_son().to_string();
    let deserialized_data: Vec<u8> = son::from_str(&son_string).unwrap();
    assert_eq!(data, deserialized_data);
}

#[test]
fn test_enum_serialization_deserialization() {
    let home = TestPhoneType { phone_type: PhoneType::Home };
    let office = TestPhoneType { phone_type: PhoneType::Office };

    let son_home = home.to_son().to_string();
    let son_office = office.to_son().to_string();

    let deserialized_home: TestPhoneType = son::from_str(&son_home).unwrap();
    let deserialized_office: TestPhoneType = son::from_str(&son_office).unwrap();

    assert_eq!(home, deserialized_home);
    assert_eq!(office, deserialized_office);
}

#[test]
fn test_complex_client_serialization_deserialization() {
    let client = Client {
        first_name: "Jane".to_string(),
        last_name: "Smith".to_string(),
        age: 25,
        is_alive: true,
        is_retired: false,
        initial: 'J',
        address: Address {
            street_address: "10 Downing St".to_string(),
            city: "London".to_string(),
            state: "England".to_string(),
            postal_code: "SW1A 2AA".to_string(),
            latitude: 51.5007,
        },
        phone_numbers: vec![
            PhoneNumber { ty: PhoneType::Home, number: "+44 20 7946 0123".to_string() },
            PhoneNumber { ty: PhoneType::Office, number: "+44 20 7946 0456".to_string() },
        ],
    };

    let son_string = client.to_son().to_string();
    let deserialized_client: Client = son::from_str(&son_string).unwrap();

    assert_eq!(client, deserialized_client);
}

fn expect_ok<T: std::fmt::Debug + PartialEq>(label: &str, result: Result<T, DeserializationError>, expected: T) {
    match result {
        Ok(v) => assert_eq!(v, expected),
        Err(e) => panic!("[{}] Expected Ok but got Err: {}", label, e.message()),
    }
}

fn expect_unexpected_type<T>(label: &str, result: Result<T, DeserializationError>, expected: String, found: String) {
    match result {
        Ok(_) => panic!("[{}] Expected and Err but got Ok", label),
        Err(e) => match e {
            DeserializationError::UnexpectedType { expected: x, found: y } => {
                assert_eq!(x, expected);
                assert_eq!(y, found);
            }
            _ => panic!("[{}] Expected DeserializationError::UnexpectedType but got {}", label, e.message()),
        },
    }
}

#[test]
fn test_deserialization() {
    expect_ok("String", String::from_son(Value::String("Hello, World!".to_string())), "Hello, World!".to_string());
    expect_ok("Char", char::from_son(Value::Char('A')), 'A');
    expect_ok("Bool", bool::from_son(Value::Bool(true)), true);
    expect_ok("i8", i8::from_son(Value::Integer(42)), 42i8);
    expect_ok("i16", i16::from_son(Value::Integer(1000)), 1000i16);
    expect_ok("i32", i32::from_son(Value::Integer(100000)), 100000i32);
    expect_ok("i64", i64::from_son(Value::Integer(9223372036854775807)), 9223372036854775807i64);
    expect_ok("i128", i128::from_son(Value::Integer(123456789012345)), 123456789012345i128);
    expect_ok("isize", isize::from_son(Value::Integer(12345)), 12345isize);
    expect_ok("u8", u8::from_son(Value::Integer(255)), 255u8);
    expect_ok("u16", u16::from_son(Value::Integer(65535)), 65535u16);
    expect_ok("u32", u32::from_son(Value::Integer(4294967295)), 4294967295u32);
    expect_ok("u64", u64::from_son(Value::Integer(18446744073709551615)), 18446744073709551615u64);
    expect_ok("u128", u128::from_son(Value::Integer(987654321098765)), 987654321098765u128);
    expect_ok("usize", usize::from_son(Value::Integer(54321)), 54321usize);
    expect_ok("f32", f32_from_son(Value::Integer(42)), 42.0f32);
    expect_ok("f64", f64_from_son(Value::Integer(123)), 123.0f64);
    expect_ok(
        "Vec<i32>",
        Vec::<i32>::from_son(Value::Array(vec![Value::Integer(1), Value::Integer(2), Value::Integer(3)])),
        vec![1, 2, 3],
    );

    // An associative map: its entries become the object's fields.
    let mut expected_map = HashMap::new();
    expected_map.insert("key1".to_string(), Value::Integer(42));
    expected_map.insert("key2".to_string(), Value::String("value".to_string()));
    let hashmap_value = object_of(&expected_map.clone().into_iter().collect());
    let result = object_fields(hashmap_value.clone());
    match result {
        Ok(m) => {
            assert_eq!(m.len(), 2);
            assert_eq!(hashmap_value.get("key1"), Some(&Value::Integer(42)));
            assert_eq!(hashmap_value.get("key2"), Some(&Value::String("value".to_string())));
        }
        Err(e) => panic!("[HashMap] Expected Ok but got Err: {}", e.message()),
    }
}

#[test]
fn test_deserialization_errors() {
    expect_unexpected_type(
        "String",
        String::from_son(Value::Bool(false)),
        Value::String(String::new()).get_type(),
        Value::Bool(false).get_type(),
    );
    expect_unexpected_type(
        "Char",
        char::from_son(Value::String("Hello".to_string())),
        Value::Char(' ').get_type(),
        Value::String(String::new()).get_type(),
    );
    expect_unexpected_type(
        "Bool",
        bool::from_son(Value::Integer(42)),
        Value::Bool(false).get_type(),
        Value::Integer(0).get_type(),
    );
    expect_unexpected_type(
        "i8",
        i8::from_son(Value::String("not a number".to_string())),
        Value::Integer(0).get_type(),
        Value::String(String::new()).get_type(),
    );
    expect_unexpected_type(
        "i16",
        i16::from_son(Value::Bool(true)),
        Value::Integer(0).get_type(),
        Value::Bool(false).get_type(),
    );
    expect_unexpected_type(
        "i32",
        i32::from_son(Value::Char('x')),
        Value::Integer(0).get_type(),
        Value::Char(' ').get_type(),
    );
    expect_unexpected_type(
        "i64",
        i64::from_son(Value::Array(vec![])),
        Value::Integer(0).get_type(),
        Value::Array(vec![]).get_type(),
    );
    expect_unexpected_type(
        "i128",
        i128::from_son(Value::String("123".to_string())),
        Value::Integer(0).get_type(),
        Value::String(String::new()).get_type(),
    );
    expect_unexpected_type(
        "isize",
        isize::from_son(Value::Bool(false)),
        Value::Integer(0).get_type(),
        Value::Bool(false).get_type(),
    );
    expect_unexpected_type(
        "u8",
        u8::from_son(Value::String("not a number".to_string())),
        Value::Integer(0).get_type(),
        Value::String(String::new()).get_type(),
    );
    expect_unexpected_type(
        "u16",
        u16::from_son(Value::Bool(true)),
        Value::Integer(0).get_type(),
        Value::Bool(false).get_type(),
    );
    expect_unexpected_type(
        "u32",
        u32::from_son(Value::Char('x')),
        Value::Integer(0).get_type(),
        Value::Char(' ').get_type(),
    );
    expect_unexpected_type(
        "u64",
        u64::from_son(Value::Array(vec![])),
        Value::Integer(0).get_type(),
        Value::Array(vec![]).get_type(),
    );
    expect_unexpected_type(
        "u128",
        u128::from_son(Value::String("456".to_string())),
        Value::Integer(0).get_type(),
        Value::String(String::new()).get_type(),
    );
    expect_unexpected_type(
        "usize",
        usize::from_son(Value::Bool(false)),
        Value::Integer(0).get_type(),
        Value::Bool(false).get_type(),
    );
    expect_unexpected_type(
        "f32",
        f32_from_son(Value::String("3.14".to_string())),
        Value::Integer(0).get_type(),
        Value::String(String::new()).get_type(),
    );
    expect_unexpected_type(
        "f64",
        f64_from_son(Value::Bool(false)),
        Value::Integer(0).get_type(),
        Value::Bool(false).get_type(),
    );
    expect_unexpected_type(
        "Vec<i32>",
        Vec::<i32>::from_son(Value::Integer(42)),
        Value::Array(vec![]).get_type(),
        Value::Integer(0).get_type(),
    );
    expect_unexpected_type(
        "HashMap",
        object_fields(Value::String("not an object".to_string())),
        Value::Object(Vec::new()).get_type(),
        Value::String(String::new()).get_type(),
    );
}

fn map_to_son<K: ToString, V: ToSon>(map: HashMap<K, V>) -> Value {
    object_of(&map.into_iter().map(|(k, v)| (k.to_string(), v)).collect())
}

fn object_len(son: &Value) -> usize {
    object_fields(son.clone()).unwrap().len()
}

#[test]
fn test_serialization() {
    // Testing &str serialization
    {
        let son_str = "Hello".to_son();
        match son_str {
            Value::String(s) => assert_eq!(s, "Hello"),
            _ => panic!("[&str] Expected Value::String but got {:?}", son_str),
        }
    }

    // Testing HashMap<String, i32> serialization
    {
        let mut map = HashMap::new();
        map.insert("age".to_string(), 30);
        map.insert("score".to_string(), 100);
        let result = map_to_son(map);
        assert_eq!(object_len(&result), 2);
        assert_eq!(result.get("age"), Some(&Value::Integer(30)));
        assert_eq!(result.get("score"), Some(&Value::Integer(100)));
    }

    // Testing HashMap<&str, String> serialization
    {
        let mut map = HashMap::new();
        map.insert("name", "Alice".to_string());
        map.insert("city", "New York".to_string());
        let result = map_to_son(map);
        assert_eq!(object_len(&result), 2);
        assert_eq!(result.get("name"), Some(&Value::String("Alice".to_string())));
        assert_eq!(result.get("city"), Some(&Value::String("New York".to_string())));
    }

    // Testing HashMap<i32, bool> serialization (non-string keys)
    {
        let mut map = HashMap::new();
        map.insert(1, true);
        map.insert(2, false);
        map.insert(3, true);
        let result = map_to_son(map);
        assert_eq!(object_len(&result), 3);
        assert_eq!(result.get("1"), Some(&Value::Bool(true)));
        assert_eq!(result.get("2"), Some(&Value::Bool(false)));
        assert_eq!(result.get("3"), Some(&Value::Bool(true)));
    }

    // Testing empty HashMap serialization
    {
        let map: HashMap<String, i32> = HashMap::new();
        let result = map_to_son(map);
        assert_eq!(object_len(&result), 0);
        assert!(object_fields(result).unwrap().is_empty());
    }

    // Testing nested HashMap serialization
    {
        let mut inner_map = HashMap::new();
        inner_map.insert("inner_key".to_string(), 42);
        let mut outer_map = HashMap::new();
        outer_map.insert("data".to_string(), map_to_son(inner_map));
        let result = map_to_son(outer_map);
        assert_eq!(object_len(&result), 1);
        match result.get("data") {
            Some(inner) => {
                assert_eq!(object_len(inner), 1);
                assert_eq!(inner.get("inner_key"), Some(&Value::Integer(42)));
            }
            _ => panic!("[Nested HashMap] Expected nested Value::Object"),
        }
    }

    // Testing HashMap with Vec values
    {
        let mut map = HashMap::new();
        map.insert("numbers".to_string(), vec![1, 2, 3]);
        map.insert("more_numbers".to_string(), vec![4, 5, 6]);
        let result = map_to_son(map);
        assert_eq!(object_len(&result), 2);
        match result.get("numbers") {
            Some(Value::Array(arr)) => {
                assert_eq!(arr.len(), 3);
                assert_eq!(arr[0], Value::Integer(1));
                assert_eq!(arr[1], Value::Integer(2));
                assert_eq!(arr[2], Value::Integer(3));
            }
            _ => panic!("[HashMap with Vec] Expected Value::Array for 'numbers'"),
        }
        match result.get("more_numbers") {
            Some(Value::Array(arr)) => {
                assert_eq!(arr.len(), 3);
                assert_eq!(arr[0], Value::Integer(4));
                assert_eq!(arr[1], Value::Integer(5));
                assert_eq!(arr[2], Value::Integer(6));
            }
            _ => panic!("[HashMap with Vec] Expected Value::Array for 'more_numbers'"),
        }
    }
}
