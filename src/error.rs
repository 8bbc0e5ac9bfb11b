use crate::text::{chars_of, push_text, string_from_chars};
use crate::token::{kinds_text, push_kinds, token_text, Token, TokenType, TokenView};
use vstd::prelude::*;

verus! {

/// Why a value could not be converted to a typed one.
#[derive(Debug, PartialEq)]
pub enum DeserializationError {
    UnexpectedType { expected: String, found: String },
    MissingField { field: String },
    InvalidValue { message: String },
    UnknownVariant { variant: String, enum_name: String },
    Custom(String),
}

/// The text of a conversion error.
pub open spec fn deserialization_text(e: DeserializationError) -> Seq<char> {
    match e {
        DeserializationError::UnexpectedType { expected, found } => "Unexpected type: expected "@
            + expected@ + ", found "@ + found@,
        DeserializationError::MissingField { field } => "Missing field: "@ + field@,
        DeserializationError::InvalidValue { message } => "Invalid value: "@ + message@,
        DeserializationError::UnknownVariant { variant, enum_name } => "Unknown variant '"@
            + variant@ + "' for enum '"@ + enum_name@ + "'"@,
        DeserializationError::Custom(message) => message@,
    }
}

impl DeserializationError {
    fn push_message(&self, out: &mut Vec<char>)
        ensures
            final(out)@ == old(out)@ + deserialization_text(*self),
    {
        let ghost base = out@;
        match self {
            DeserializationError::UnexpectedType { expected, found } => {
                push_text(out, "Unexpected type: expected ");
                push_text(out, expected.as_str());
                push_text(out, ", found ");
                push_text(out, found.as_str());
            },
            DeserializationError::MissingField { field } => {
                push_text(out, "Missing field: ");
                push_text(out, field.as_str());
            },
            DeserializationError::InvalidValue { message } => {
                push_text(out, "Invalid value: ");
                push_text(out, message.as_str());
            },
            DeserializationError::UnknownVariant { variant, enum_name } => {
                push_text(out, "Unknown variant '");
                push_text(out, variant.as_str());
                push_text(out, "' for enum '");
                push_text(out, enum_name.as_str());
                push_text(out, "'");
            },
            DeserializationError::Custom(message) => push_text(out, message.as_str()),
        }
        assert(out@ =~= base + deserialization_text(*self));
    }

    /// The text of this error: see `deserialization_text`.
    pub fn message(&self) -> (r: String)
        ensures
            r@ == deserialization_text(*self),
    {
        let mut out: Vec<char> = Vec::new();
        self.push_message(&mut out);
        assert(out@ =~= deserialization_text(*self));
        string_from_chars(&out)
    }
}

/// The grammar production that was active when parsing failed.
#[derive(Debug, Clone, Copy, PartialEq, Eq, Structural)]
pub enum ParseStep {
    Start,
    Value,
    Array,
    Object,
}

/// The label of a production in messages.
pub open spec fn step_label(s: ParseStep) -> Seq<char> {
    match s {
        ParseStep::Start => ""@,
        ParseStep::Value => "[Parse Value]"@,
        ParseStep::Array => "[Parse Array]"@,
        ParseStep::Object => "[Parse Object]"@,
    }
}

impl ParseStep {
    /// The label of this production: see `step_label`.
    pub fn label(&self) -> (r: &'static str)
        ensures
            r@ == step_label(*self),
    {
        match self {
            ParseStep::Start => "",
            ParseStep::Value => "[Parse Value]",
            ParseStep::Array => "[Parse Array]",
            ParseStep::Object => "[Parse Object]",
        }
    }
}

/// Why a text could not be parsed.
#[derive(Debug)]
pub enum ParseError {
    IOError(ParseStep, String),
    UnexpectedToken { step: ParseStep, expected: Vec<TokenType>, found: Token, message: String },
    UnexpectedIdentifier { step: ParseStep, expected: String, found: String, message: String },
    UnexpectedEOF(ParseStep),
    ErrorToken(ParseStep, Token),
}

/// The model of a `ParseError`.
pub enum ParseErrorView {
    IOError(ParseStep, Seq<char>),
    UnexpectedToken {
        step: ParseStep,
        expected: Seq<TokenType>,
        found: TokenView,
        message: Seq<char>,
    },
    UnexpectedIdentifier {
        step: ParseStep,
        expected: Seq<char>,
        found: Seq<char>,
        message: Seq<char>,
    },
    UnexpectedEOF(ParseStep),
    ErrorToken(ParseStep, TokenView),
}

impl ParseError {
    pub open spec fn view(self) -> ParseErrorView {
        match self {
            ParseError::IOError(step, m) => ParseErrorView::IOError(step, m@),
            ParseError::UnexpectedToken { step, expected, found, message } =>
                ParseErrorView::UnexpectedToken {
                step,
                expected: expected@,
                found: found@,
                message: message@,
            },
            ParseError::UnexpectedIdentifier { step, expected, found, message } =>
                ParseErrorView::UnexpectedIdentifier {
                step,
                expected: expected@,
                found: found@,
                message: message@,
            },
            ParseError::UnexpectedEOF(step) => ParseErrorView::UnexpectedEOF(step),
            ParseError::ErrorToken(step, t) => ParseErrorView::ErrorToken(step, t@),
        }
    }
}

/// The text of a parse error.
pub open spec fn parse_error_text(e: ParseErrorView) -> Seq<char> {
    match e {
        ParseErrorView::IOError(step, m) => step_label(step) + seq![' '] + m,
        ParseErrorView::UnexpectedToken { step, expected, found, message } => step_label(step)
            + " Unexpected token: expected one of "@ + kinds_text(expected) + ", got: \n"@
            + token_text(found) + (if message.len() == 0 {
            seq!['.']
        } else {
            ". \n"@ + message
        }),
        ParseErrorView::UnexpectedIdentifier { step, .. } => step_label(step)
            + " Unexpected identifier"@,
        ParseErrorView::UnexpectedEOF(step) => step_label(step) + " Unexpected End of File"@,
        ParseErrorView::ErrorToken(step, t) => step_label(step) + " Error at: "@ + token_text(t),
    }
}

impl ParseError {
    fn push_message(&self, out: &mut Vec<char>)
        ensures
            final(out)@ == old(out)@ + parse_error_text(self.view()),
    {
        let ghost base = out@;
        match self {
            ParseError::IOError(step, m) => {
                push_text(out, step.label());
                out.push(' ');
                push_text(out, m.as_str());
            },
            ParseError::UnexpectedToken { step, expected, found, message } => {
                push_text(out, step.label());
                push_text(out, " Unexpected token: expected one of ");
                push_kinds(out, expected);
                push_text(out, ", got: \n");
                found.push_description(out);
                if chars_of(message.as_str()).len() == 0 {
                    out.push('.');
                } else {
                    push_text(out, ". \n");
                    push_text(out, message.as_str());
                }
            },
            ParseError::UnexpectedIdentifier { step, .. } => {
                push_text(out, step.label());
                push_text(out, " Unexpected identifier");
            },
            ParseError::UnexpectedEOF(step) => {
                push_text(out, step.label());
                push_text(out, " Unexpected End of File");
            },
            ParseError::ErrorToken(step, t) => {
                push_text(out, step.label());
                push_text(out, " Error at: ");
                t.push_description(out);
            },
        }
        assert(out@ =~= base + parse_error_text(self.view()));
    }

    /// The text of this error: see `parse_error_text`.
    pub fn message(&self) -> (r: String)
        ensures
            r@ == parse_error_text(self.view()),
    {
        let mut out: Vec<char> = Vec::new();
        self.push_message(&mut out);
        assert(out@ =~= parse_error_text(self.view()));
        string_from_chars(&out)
    }
}

/// Any failure of the top-level operations: a parse error, a conversion
/// error, or an input/output error with its description.
#[derive(Debug)]
pub enum Error {
    ParseError(ParseError),
    DeserializationError(DeserializationError),
    IOError(String),
}

/// The text of an error of the top-level operations.
pub open spec fn error_text(e: Error) -> Seq<char> {
    match e {
        Error::ParseError(pe) => "Parse Error: "@ + parse_error_text(pe.view()),
        Error::DeserializationError(de) => "Deserialization Error: "@ + deserialization_text(de),
        Error::IOError(m) => "IO Error: "@ + m@,
    }
}

impl Error {
    /// The text of this error: see `error_text`.
    pub fn message(&self) -> (r: String)
        ensures
            r@ == error_text(*self),
    {
        let mut out: Vec<char> = Vec::new();
        match self {
            Error::ParseError(pe) => {
                push_text(&mut out, "Parse Error: ");
                pe.push_message(&mut out);
            },
            Error::DeserializationError(de) => {
                push_text(&mut out, "Deserialization Error: ");
                de.push_message(&mut out);
            },
            Error::IOError(m) => {
                push_text(&mut out, "IO Error: ");
                push_text(&mut out, m.as_str());
            },
        }
        assert(out@ =~= error_text(*self));
        string_from_chars(&out)
    }
}

impl From<ParseError> for Error {
    fn from(e: ParseError) -> (r: Error)
        ensures
            r == Error::ParseError(e),
    {
        Error::ParseError(e)
    }
}

impl vstd::std_specs::convert::FromSpecImpl<ParseError> for Error {
    open spec fn obeys_from_spec() -> bool {
        true
    }

    open spec fn from_spec(e: ParseError) -> Error {
        Error::ParseError(e)
    }
}

impl From<DeserializationError> for Error {
    fn from(e: DeserializationError) -> (r: Error)
        ensures
            r == Error::DeserializationError(e),
    {
        Error::DeserializationError(e)
    }
}

impl vstd::std_specs::convert::FromSpecImpl<DeserializationError> for Error {
    open spec fn obeys_from_spec() -> bool {
        true
    }

    open spec fn from_spec(e: DeserializationError) -> Error {
        Error::DeserializationError(e)
    }
}

} // verus!
