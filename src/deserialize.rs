use crate::error::DeserializationError;
use crate::text::{decimal, push_decimal};
use crate::parser::{field_index, fields_view};
use crate::text::{same_text, string_from_chars};
use crate::value::{kind_name, Decimal, Value, ValueView};
use vstd::prelude::*;

verus! {

/// `e` says that a value of kind `expected` was wanted and one of kind
/// `found` was given.
pub open spec fn unexpected_type(e: DeserializationError, expected: Seq<char>, found: Seq<char>) -> bool {
    e matches DeserializationError::UnexpectedType { expected: x, found: y } && x@ == expected && y@
        == found
}

/// The message given when a negative integer meets an unsigned target.
pub open spec fn negative_unsigned_message() -> Seq<char> {
    "A negative value cannot populate an unsigned field"@
}

/// The conversion of a value tree to a typed value.
pub trait FromSon: Sized {
    /// Whether `r` is what converting a value with model `son` gives; a type
    /// that states nothing about its conversion keeps this default.
    open spec fn from_son_spec(son: ValueView, r: Result<Self, DeserializationError>) -> bool {
        true
    }

    fn from_son(son: Value) -> (r: Result<Self, DeserializationError>)
        ensures
            Self::from_son_spec(son.view(), r),
    ;
}

/// Some typed value is what `v` converts to.
pub open spec fn converts<T: FromSon>(v: ValueView) -> bool {
    exists|x: T| T::from_son_spec(v, Ok(x))
}

/// The element at `j` is the first that does not convert, and `e` is why.
pub open spec fn fails_at<T: FromSon>(items: Seq<ValueView>, j: int, e: DeserializationError) -> bool {
    &&& 0 <= j < items.len()
    &&& T::from_son_spec(items[j], Err(e))
    &&& forall|i: int| 0 <= i < j ==> converts::<T>(#[trigger] items[i])
}

/// The types that can be read from the value tree.
pub trait Deserialize: FromSon {}

/// The error for a value of the wrong kind.
pub fn default_error(expected: &str, found: &Value) -> (r: DeserializationError)
    ensures
        unexpected_type(r, expected@, kind_name(found.view())),
{
    DeserializationError::UnexpectedType { expected: expected.to_owned(), found: found.get_type() }
}

/// The fields of an object; any other value is the wrong kind.
pub fn object_fields(son: Value) -> (r: Result<Vec<(String, Value)>, DeserializationError>)
    ensures
        match son.view() {
            ValueView::Object(f) => r matches Ok(v) && fields_view(v@) == f,
            _ => r matches Err(e) && unexpected_type(e, "Object"@, kind_name(son.view())),
        },
{
    match son {
        Value::Object(fields) => {
            assert(fields_view(fields@) =~= Value::Object(fields).view()->Object_0);
            Ok(fields)
        },
        _ => Err(default_error("Object", &son)),
    }
}

/// Removes the field `name` from an object's fields and converts its
/// value, so that no field serves two targets; a field that is not there is
/// missing.
pub fn take_field<T: FromSon>(fields: &mut Vec<(String, Value)>, name: &str) -> (r: Result<
    T,
    DeserializationError,
>)
    ensures
        match field_index(fields_view(old(fields)@), name@) {
            Some(i) => {
                &&& fields_view(final(fields)@) == fields_view(old(fields)@).remove(i as int)
                &&& T::from_son_spec(fields_view(old(fields)@)[i as int].1, r)
            },
            None => {
                &&& fields_view(final(fields)@) == fields_view(old(fields)@)
                &&& r matches Err(DeserializationError::MissingField { field }) && field@ == name@
            },
        },
{
    let ghost fv = fields_view(fields@);
    let mut i: usize = fields.len();
    assert(fv.take(i as int) =~= fv);
    while i > 0
        invariant
            i <= fields.len(),
            fields@ == old(fields)@,
            fv == fields_view(fields@),
            field_index(fv, name@) == field_index(fv.take(i as int), name@),
        decreases i,
    {
        assert(fv.take(i as int).drop_last() =~= fv.take(i - 1));
        if same_text(fields[i - 1].0.as_str(), name) {
            let (_, value) = fields.remove(i - 1);
            assert(fields_view(fields@) =~= fv.remove(i - 1));
            return T::from_son(value);
        }
        i -= 1;
    }
    assert(fv.take(0) =~= Seq::<(Seq<char>, ValueView)>::empty());
    Err(DeserializationError::MissingField { field: name.to_owned() })
}

/// Which of an enum's unit variants a tag names, by exact comparison; a tag
/// that names none is an unknown variant of `enum_name`.
pub fn variant_index(son: Value, variants: &[&str], enum_name: &str) -> (r: Result<
    usize,
    DeserializationError,
>)
    ensures
        match son.view() {
            ValueView::Enum(tag) => match r {
                Ok(i) => i < variants@.len() && variants@[i as int]@ == tag && forall|j: int|
                    0 <= j < i ==> (#[trigger] variants@[j])@ != tag,
                Err(e) => {
                    &&& forall|j: int| 0 <= j < variants@.len() ==> (#[trigger] variants@[j])@ != tag
                    &&& e matches DeserializationError::UnknownVariant { variant, enum_name: n }
                        && variant@ == tag && n@ == enum_name@
                },
            },
            _ => r matches Err(e) && unexpected_type(e, "Enum"@, kind_name(son.view())),
        },
{
    let ghost sv = son.view();
    match son {
        Value::Enum(tag) => {
            let mut i: usize = 0;
            while i < variants.len()
                invariant
                    sv == son.view(),
                    sv == ValueView::Enum(tag@),
                    i <= variants@.len(),
                    forall|j: int| 0 <= j < i ==> (#[trigger] variants@[j])@ != tag@,
                decreases variants@.len() - i,
            {
                if same_text(tag.as_str(), variants[i]) {
                    return Ok(i);
                }
                i += 1;
            }
            Err(DeserializationError::UnknownVariant { variant: tag, enum_name: enum_name.to_owned() })
        },
        _ => Err(default_error("Enum", &son)),
    }
}

impl FromSon for Value {
    open spec fn from_son_spec(son: ValueView, r: Result<Value, DeserializationError>) -> bool {
        r matches Ok(v) && v.view() == son
    }

    fn from_son(son: Value) -> (r: Result<Value, DeserializationError>) {
        Ok(son)
    }
}

impl Deserialize for Value {}

impl FromSon for String {
    open spec fn from_son_spec(son: ValueView, r: Result<String, DeserializationError>) -> bool {
        match son {
            ValueView::String(s) => r matches Ok(x) && x@ == s,
            _ => r matches Err(e) && unexpected_type(e, "String"@, kind_name(son)),
        }
    }

    fn from_son(son: Value) -> (r: Result<String, DeserializationError>) {
        match son {
            Value::String(s) => Ok(s),
            _ => Err(default_error("String", &son)),
        }
    }
}

impl Deserialize for String {}

impl FromSon for char {
    open spec fn from_son_spec(son: ValueView, r: Result<char, DeserializationError>) -> bool {
        match son {
            ValueView::Char(c) => r == Ok::<char, DeserializationError>(c),
            _ => r matches Err(e) && unexpected_type(e, "Char"@, kind_name(son)),
        }
    }

    fn from_son(son: Value) -> (r: Result<char, DeserializationError>) {
        match son {
            Value::Char(c) => Ok(c),
            _ => Err(default_error("Char", &son)),
        }
    }
}

impl Deserialize for char {}

impl FromSon for bool {
    open spec fn from_son_spec(son: ValueView, r: Result<bool, DeserializationError>) -> bool {
        match son {
            ValueView::Bool(b) => r == Ok::<bool, DeserializationError>(b),
            _ => r matches Err(e) && unexpected_type(e, "Bool"@, kind_name(son)),
        }
    }

    fn from_son(son: Value) -> (r: Result<bool, DeserializationError>) {
        match son {
            Value::Bool(b) => Ok(b),
            _ => Err(default_error("Bool", &son)),
        }
    }
}

impl Deserialize for bool {}

impl FromSon for i8 {
    /// An integer, truncated to the width of the target.
    open spec fn from_son_spec(son: ValueView, r: Result<i8, DeserializationError>) -> bool {
        match son {
            ValueView::Integer(i) => r == Ok::<i8, DeserializationError>(i as i8),
            _ => r matches Err(e) && unexpected_type(e, "Integer"@, kind_name(son)),
        }
    }

    fn from_son(son: Value) -> (r: Result<i8, DeserializationError>) {
        match son {
            Value::Integer(i) => Ok(#[verifier::truncate] (i as i8)),
            _ => Err(default_error("Integer", &son)),
        }
    }
}

impl Deserialize for i8 {}

impl FromSon for i16 {
    /// An integer, truncated to the width of the target.
    open spec fn from_son_spec(son: ValueView, r: Result<i16, DeserializationError>) -> bool {
        match son {
            ValueView::Integer(i) => r == Ok::<i16, DeserializationError>(i as i16),
            _ => r matches Err(e) && unexpected_type(e, "Integer"@, kind_name(son)),
        }
    }

    fn from_son(son: Value) -> (r: Result<i16, DeserializationError>) {
        match son {
            Value::Integer(i) => Ok(#[verifier::truncate] (i as i16)),
            _ => Err(default_error("Integer", &son)),
        }
    }
}

impl Deserialize for i16 {}

impl FromSon for i32 {
    /// An integer, truncated to the width of the target.
    open spec fn from_son_spec(son: ValueView, r: Result<i32, DeserializationError>) -> bool {
        match son {
            ValueView::Integer(i) => r == Ok::<i32, DeserializationError>(i as i32),
            _ => r matches Err(e) && unexpected_type(e, "Integer"@, kind_name(son)),
        }
    }

    fn from_son(son: Value) -> (r: Result<i32, DeserializationError>) {
        match son {
            Value::Integer(i) => Ok(#[verifier::truncate] (i as i32)),
            _ => Err(default_error("Integer", &son)),
        }
    }
}

impl Deserialize for i32 {}

impl FromSon for i64 {
    /// An integer, truncated to the width of the target.
    open spec fn from_son_spec(son: ValueView, r: Result<i64, DeserializationError>) -> bool {
        match son {
            ValueView::Integer(i) => r == Ok::<i64, DeserializationError>(i as i64),
            _ => r matches Err(e) && unexpected_type(e, "Integer"@, kind_name(son)),
        }
    }

    fn from_son(son: Value) -> (r: Result<i64, DeserializationError>) {
        match son {
            Value::Integer(i) => Ok(#[verifier::truncate] (i as i64)),
            _ => Err(default_error("Integer", &son)),
        }
    }
}

impl Deserialize for i64 {}

impl FromSon for i128 {
    /// An integer, truncated to the width of the target.
    open spec fn from_son_spec(son: ValueView, r: Result<i128, DeserializationError>) -> bool {
        match son {
            ValueView::Integer(i) => r == Ok::<i128, DeserializationError>(i as i128),
            _ => r matches Err(e) && unexpected_type(e, "Integer"@, kind_name(son)),
        }
    }

    fn from_son(son: Value) -> (r: Result<i128, DeserializationError>) {
        match son {
            Value::Integer(i) => Ok(#[verifier::truncate] (i as i128)),
            _ => Err(default_error("Integer", &son)),
        }
    }
}

impl Deserialize for i128 {}

impl FromSon for isize {
    /// An integer, truncated to the width of the target.
    open spec fn from_son_spec(son: ValueView, r: Result<isize, DeserializationError>) -> bool {
        match son {
            ValueView::Integer(i) => r == Ok::<isize, DeserializationError>(i as isize),
            _ => r matches Err(e) && unexpected_type(e, "Integer"@, kind_name(son)),
        }
    }

    fn from_son(son: Value) -> (r: Result<isize, DeserializationError>) {
        match son {
            Value::Integer(i) => Ok(#[verifier::truncate] (i as isize)),
            _ => Err(default_error("Integer", &son)),
        }
    }
}

impl Deserialize for isize {}

impl FromSon for u8 {
    /// A non-negative integer, truncated to the width of the target.
    open spec fn from_son_spec(son: ValueView, r: Result<u8, DeserializationError>) -> bool {
        match son {
            ValueView::Integer(i) => if i < 0 {
                r matches Err(DeserializationError::InvalidValue { message }) && message@
                    == negative_unsigned_message()
            } else {
                r == Ok::<u8, DeserializationError>(i as u8)
            },
            _ => r matches Err(e) && unexpected_type(e, "Integer"@, kind_name(son)),
        }
    }

    fn from_son(son: Value) -> (r: Result<u8, DeserializationError>) {
        match son {
            Value::Integer(i) => if i < 0 {
                Err(
                    DeserializationError::InvalidValue {
                        message: "A negative value cannot populate an unsigned field".to_owned(),
                    },
                )
            } else {
                Ok(#[verifier::truncate] (i as u8))
            },
            _ => Err(default_error("Integer", &son)),
        }
    }
}

impl Deserialize for u8 {}

impl FromSon for u16 {
    /// A non-negative integer, truncated to the width of the target.
    open spec fn from_son_spec(son: ValueView, r: Result<u16, DeserializationError>) -> bool {
        match son {
            ValueView::Integer(i) => if i < 0 {
                r matches Err(DeserializationError::InvalidValue { message }) && message@
                    == negative_unsigned_message()
            } else {
                r == Ok::<u16, DeserializationError>(i as u16)
            },
            _ => r matches Err(e) && unexpected_type(e, "Integer"@, kind_name(son)),
        }
    }

    fn from_son(son: Value) -> (r: Result<u16, DeserializationError>) {
        match son {
            Value::Integer(i) => if i < 0 {
                Err(
                    DeserializationError::InvalidValue {
                        message: "A negative value cannot populate an unsigned field".to_owned(),
                    },
                )
            } else {
                Ok(#[verifier::truncate] (i as u16))
            },
            _ => Err(default_error("Integer", &son)),
        }
    }
}

impl Deserialize for u16 {}

impl FromSon for u32 {
    /// A non-negative integer, truncated to the width of the target.
    open spec fn from_son_spec(son: ValueView, r: Result<u32, DeserializationError>) -> bool {
        match son {
            ValueView::Integer(i) => if i < 0 {
                r matches Err(DeserializationError::InvalidValue { message }) && message@
                    == negative_unsigned_message()
            } else {
                r == Ok::<u32, DeserializationError>(i as u32)
            },
            _ => r matches Err(e) && unexpected_type(e, "Integer"@, kind_name(son)),
        }
    }

    fn from_son(son: Value) -> (r: Result<u32, DeserializationError>) {
        match son {
            Value::Integer(i) => if i < 0 {
                Err(
                    DeserializationError::InvalidValue {
                        message: "A negative value cannot populate an unsigned field".to_owned(),
                    },
                )
            } else {
                Ok(#[verifier::truncate] (i as u32))
            },
            _ => Err(default_error("Integer", &son)),
        }
    }
}

impl Deserialize for u32 {}

impl FromSon for u64 {
    /// A non-negative integer, truncated to the width of the target.
    open spec fn from_son_spec(son: ValueView, r: Result<u64, DeserializationError>) -> bool {
        match son {
            ValueView::Integer(i) => if i < 0 {
                r matches Err(DeserializationError::InvalidValue { message }) && message@
                    == negative_unsigned_message()
            } else {
                r == Ok::<u64, DeserializationError>(i as u64)
            },
            _ => r matches Err(e) && unexpected_type(e, "Integer"@, kind_name(son)),
        }
    }

    fn from_son(son: Value) -> (r: Result<u64, DeserializationError>) {
        match son {
            Value::Integer(i) => if i < 0 {
                Err(
                    DeserializationError::InvalidValue {
                        message: "A negative value cannot populate an unsigned field".to_owned(),
                    },
                )
            } else {
                Ok(#[verifier::truncate] (i as u64))
            },
            _ => Err(default_error("Integer", &son)),
        }
    }
}

impl Deserialize for u64 {}

impl FromSon for u128 {
    /// A non-negative integer, truncated to the width of the target.
    open spec fn from_son_spec(son: ValueView, r: Result<u128, DeserializationError>) -> bool {
        match son {
            ValueView::Integer(i) => if i < 0 {
                r matches Err(DeserializationError::InvalidValue { message }) && message@
                    == negative_unsigned_message()
            } else {
                r == Ok::<u128, DeserializationError>(i as u128)
            },
            _ => r matches Err(e) && unexpected_type(e, "Integer"@, kind_name(son)),
        }
    }

    fn from_son(son: Value) -> (r: Result<u128, DeserializationError>) {
        match son {
            Value::Integer(i) => if i < 0 {
                Err(
                    DeserializationError::InvalidValue {
                        message: "A negative value cannot populate an unsigned field".to_owned(),
                    },
                )
            } else {
                Ok(#[verifier::truncate] (i as u128))
            },
            _ => Err(default_error("Integer", &son)),
        }
    }
}

impl Deserialize for u128 {}

impl FromSon for usize {
    /// A non-negative integer, truncated to the width of the target.
    open spec fn from_son_spec(son: ValueView, r: Result<usize, DeserializationError>) -> bool {
        match son {
            ValueView::Integer(i) => if i < 0 {
                r matches Err(DeserializationError::InvalidValue { message }) && message@
                    == negative_unsigned_message()
            } else {
                r == Ok::<usize, DeserializationError>(i as usize)
            },
            _ => r matches Err(e) && unexpected_type(e, "Integer"@, kind_name(son)),
        }
    }

    fn from_son(son: Value) -> (r: Result<usize, DeserializationError>) {
        match son {
            Value::Integer(i) => if i < 0 {
                Err(
                    DeserializationError::InvalidValue {
                        message: "A negative value cannot populate an unsigned field".to_owned(),
                    },
                )
            } else {
                Ok(#[verifier::truncate] (i as usize))
            },
            _ => Err(default_error("Integer", &son)),
        }
    }
}

impl Deserialize for usize {}

impl FromSon for Decimal {
    /// A decimal number; a whole number is read as one too.
    open spec fn from_son_spec(son: ValueView, r: Result<Decimal, DeserializationError>) -> bool {
        match son {
            ValueView::Float(n, d) => r matches Ok(x) && x.negative == n && x.digits@ == d,
            ValueView::Integer(i) => r matches Ok(x) && x.negative == (i < 0) && x.digits@ == decimal(
                if i < 0 { -i } else { i } as nat,
            ),
            _ => r matches Err(e) && unexpected_type(e, "Float"@, kind_name(son)),
        }
    }

    fn from_son(son: Value) -> (r: Result<Decimal, DeserializationError>) {
        match son {
            Value::Float(d) => Ok(d),
            Value::Integer(i) => {
                let m: u128 = if i == i128::MIN {
                    (i128::MAX as u128) + 1
                } else if i < 0 {
                    (-i) as u128
                } else {
                    i as u128
                };
                let mut magnitude: Vec<char> = Vec::new();
                push_decimal(m, &mut magnitude);
                assert(magnitude@ =~= decimal(if i < 0 { -i } else { i as int } as nat));
                Ok(Decimal { negative: i < 0, digits: string_from_chars(&magnitude) })
            },
            _ => Err(default_error("Float", &son)),
        }
    }
}

impl Deserialize for Decimal {}

impl<T: FromSon> FromSon for Option<T> {
    /// `Null` is `None`; anything else is read as a `T`.
    open spec fn from_son_spec(son: ValueView, r: Result<Option<T>, DeserializationError>) -> bool {
        match son {
            ValueView::Null => r matches Ok(None),
            _ => match r {
                Ok(Some(x)) => T::from_son_spec(son, Ok(x)),
                Ok(None) => false,
                Err(e) => T::from_son_spec(son, Err(e)),
            },
        }
    }

    fn from_son(son: Value) -> (r: Result<Option<T>, DeserializationError>) {
        match son {
            Value::Null => Ok(None),
            other => match T::from_son(other) {
                Ok(x) => Ok(Some(x)),
                Err(e) => Err(e),
            },
        }
    }
}

impl<T: Deserialize> Deserialize for Option<T> {}

impl<T: FromSon> FromSon for Vec<T> {
    /// An array, element by element; the first element that fails decides
    /// the error.
    open spec fn from_son_spec(son: ValueView, r: Result<Vec<T>, DeserializationError>) -> bool {
        match son {
            ValueView::Array(items) => {
                &&& r is Ok ==> r->Ok_0@.len() == items.len() && forall|i: int|
                    0 <= i < items.len() ==> T::from_son_spec(items[i], Ok(#[trigger] r->Ok_0@[i]))
                &&& r is Err ==> exists|j: int| #[trigger] fails_at::<T>(items, j, r->Err_0)
            },
            _ => r matches Err(e) && unexpected_type(e, "Array"@, kind_name(son)),
        }
    }

    fn from_son(son: Value) -> (r: Result<Vec<T>, DeserializationError>) {
        let ghost sv = son.view();
        match son {
            Value::Array(a) => {
                let ghost items = Value::Array(a).view()->Array_0;
                let ghost orig = a@;
                let n = a.len();
                let mut a = a;
                let mut out: Vec<T> = Vec::new();
                let mut i: usize = 0;
                assert(orig.skip(0) =~= orig);
                while a.len() > 0
                    invariant
                        items.len() == orig.len(),
                        orig.len() == n,
                        sv == ValueView::Array(items),
                        sv == son.view(),
                        forall|k: int| 0 <= k < orig.len() ==> (#[trigger] orig[k]).view() == items[k],
                        i <= orig.len(),
                        a@ == orig.skip(i as int),
                        out@.len() == i,
                        forall|k: int| 0 <= k < i ==> T::from_son_spec(items[k], Ok(#[trigger] out@[k])),
                    decreases a.len(),
                {
                    assert(i < orig.len());
                    let element = a.remove(0);
                    assert(element.view() == items[i as int]);
                    match T::from_son(element) {
                        Ok(x) => {
                            out.push(x);
                        },
                        Err(e) => {
                            proof {
                                assert(T::from_son_spec(items[i as int], Err(e)));
                                assert forall|k: int| 0 <= k < i implies converts::<T>(#[trigger] items[k]) by {
                                    assert(T::from_son_spec(items[k], Ok(out@[k])));
                                }
                                assert(fails_at::<T>(items, i as int, e));
                                lemma_first_failure::<T>(items, i as int, e);
                            }
                            return Err(e);
                        },
                    }
                    i += 1;
                    assert(a@ =~= orig.skip(i as int));
                }
                Ok(out)
            },
            _ => Err(default_error("Array", &son)),
        }
    }
}

impl<T: Deserialize> Deserialize for Vec<T> {}

/// The error of the first failing element is the error of the array.
proof fn lemma_first_failure<T: FromSon>(items: Seq<ValueView>, j: int, e: DeserializationError)
    requires
        fails_at::<T>(items, j, e),
    ensures
        <Vec<T> as FromSon>::from_son_spec(ValueView::Array(items), Err(e)),
{
    let r = Err::<Vec<T>, DeserializationError>(e);
    assert(r matches Err(x) && x == e);
    assert(exists|k: int| #[trigger] fails_at::<T>(items, k, r->Err_0));
    assert(ValueView::Array(items)->Array_0 == items);
}

} // verus!
