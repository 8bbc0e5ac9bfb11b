pub mod deserialize;
pub mod error;
pub mod laws;
pub mod lexer;
pub mod parser;
pub mod printer;
pub mod reading;
pub mod round_trip;
pub mod serialize;
pub mod text;
pub mod token;
pub mod util;
pub mod value;

pub use crate::deserialize::{Deserialize, FromSon};
pub use crate::error::{DeserializationError, Error, ParseError};
pub use crate::parser::SonParser;
pub use crate::printer::Printer;
pub use crate::serialize::{Serialize, ToSon};
pub use crate::util::discard;
pub use crate::value::{Decimal, Value, ValueView};

use crate::error::ParseErrorView;
use crate::parser::{initial_state, parse_document};
use crate::printer::render;
use vstd::prelude::*;
use vstd::string::StringSliceAdditionalSpecFns;

verus! {

/// What reading a typed value from a document gives: the parse error, or
/// what converting the parsed tree gives.
pub open spec fn read_result<T: FromSon>(doc: Result<ValueView, ParseErrorView>, r: Result<T, Error>) -> bool {
    match doc {
        Err(e) => r matches Err(Error::ParseError(pe)) && pe.view() == e,
        Ok(v) => match r {
            Ok(x) => T::from_son_spec(v, Ok(x)),
            Err(Error::DeserializationError(de)) => T::from_son_spec(v, Err(de)),
            _ => false,
        },
    }
}

/// Reads a typed value from the bytes of a document.
pub fn from_bytes<T: Deserialize>(data: Vec<u8>) -> (r: Result<T, Error>)
    ensures
        read_result::<T>(parse_document(initial_state(data@)).0, r),
{
    let mut parser = SonParser::new(data);
    match parser.parse() {
        Err(e) => Err(Error::ParseError(e)),
        Ok(son) => match T::from_son(son) {
            Ok(x) => Ok(x),
            Err(e) => Err(Error::DeserializationError(e)),
        },
    }
}

/// Reads a typed value from the text of a document.
pub fn from_str<T: Deserialize>(s: &str) -> (r: Result<T, Error>)
    ensures
        read_result::<T>(parse_document(initial_state(s.spec_bytes())).0, r),
{
    from_bytes(vstd::slice::slice_to_vec(s.as_bytes()))
}

/// The value tree of a typed value.
pub fn to_son<T: Serialize>(value: &T) -> (r: Value)
    ensures
        value.to_son_spec(r.view()),
{
    value.to_son()
}

/// The text of a typed value, indented by four spaces per level.
pub fn to_string<T: Serialize>(value: &T) -> (r: String)
    ensures
        exists|t: ValueView| value.to_son_spec(t) && r@ == render(t, "    "@, Seq::empty()),
{
    to_string_pretty(value, "    ")
}

/// The text of a typed value, indented by `indentation` per level.
pub fn to_string_pretty<T: Serialize>(value: &T, indentation: &str) -> (r: String)
    ensures
        exists|t: ValueView| value.to_son_spec(t) && r@ == render(t, indentation@, Seq::empty()),
{
    let son = to_son(value);
    let printer = Printer::new(indentation.to_owned());
    printer.son_to_string(&son)
}

} // verus!
