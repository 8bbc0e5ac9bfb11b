use crate::error::{ParseError, ParseErrorView, ParseStep};
use crate::lexer::{chunked_decode, lemma_scan, scan, LexState, SonLexer, TOKENIZER_BUFFER_SIZE};
use crate::token::{literal_value, Token, TokenType, TokenView};
use crate::value::{negated, Value, ValueView};
use vstd::prelude::*;

verus! {

/// The model of a parse result.
pub open spec fn result_view(r: Result<Value, ParseError>) -> Result<ValueView, ParseErrorView> {
    match r {
        Ok(v) => Ok(v.view()),
        Err(e) => Err(e.view()),
    }
}

pub open spec fn items_view(a: Seq<Value>) -> Seq<ValueView> {
    Seq::new(a.len(), |i: int| a[i].view())
}

pub open spec fn fields_view(o: Seq<(String, Value)>) -> Seq<(Seq<char>, ValueView)> {
    Seq::new(o.len(), |i: int| (o[i].0@, o[i].1.view()))
}

/// Where a field of this name stands, if it is there.
pub open spec fn field_index(fields: Seq<(Seq<char>, ValueView)>, name: Seq<char>) -> Option<nat>
    decreases fields.len(),
{
    if fields.len() == 0 {
        None
    } else if fields.last().0 == name {
        Some((fields.len() - 1) as nat)
    } else {
        field_index(fields.drop_last(), name)
    }
}

/// Sets a field: an existing field of that name takes the new value in its
/// place, otherwise the field is added at the end.
pub open spec fn set_field(fields: Seq<(Seq<char>, ValueView)>, name: Seq<char>, v: ValueView) -> Seq<
    (Seq<char>, ValueView),
> {
    match field_index(fields, name) {
        Some(i) => fields.update(i as int, (name, v)),
        None => fields.push((name, v)),
    }
}

pub open spec fn start_expected() -> Seq<TokenType> {
    seq![TokenType::LeftCurlyBrace, TokenType::LeftSquareBrace]
}

pub open spec fn value_expected() -> Seq<TokenType> {
    seq![
        TokenType::LeftCurlyBrace,
        TokenType::LeftSquareBrace,
        TokenType::Negative,
        TokenType::True,
        TokenType::False,
        TokenType::Null,
        TokenType::IntegerLiteral,
        TokenType::FloatLiteral,
        TokenType::StringLiteral,
        TokenType::CharLiteral,
        TokenType::Identifier,
    ]
}

pub open spec fn object_expected() -> Seq<TokenType> {
    seq![
        TokenType::LeftCurlyBrace,
        TokenType::RightCurlyBrace,
        TokenType::LeftSquareBrace,
        TokenType::Colon,
        TokenType::Comma,
        TokenType::Identifier,
    ]
}

pub open spec fn is_literal(k: TokenType) -> bool {
    k == TokenType::True || k == TokenType::False || k == TokenType::Null || k
        == TokenType::IntegerLiteral || k == TokenType::FloatLiteral || k == TokenType::StringLiteral
        || k == TokenType::CharLiteral
}

/// The error token that stands for a literal without a value.
pub open spec fn invalid_literal(t: TokenView) -> TokenView {
    TokenView {
        kind: TokenType::Error,
        line: t.line,
        col: t.col,
        source: if t.kind == TokenType::CharLiteral {
            "Char literal must hold exactly one character"@
        } else {
            "Literal out of range"@
        },
    }
}

pub open spec fn eof_at(step: ParseStep, st: LexState) -> (Result<ValueView, ParseErrorView>, LexState) {
    (Err(ParseErrorView::UnexpectedEOF(step)), st)
}

/// Parses a value from `st`; the result and the state after it.
pub open spec fn parse_value_spec(st: LexState) -> (Result<ValueView, ParseErrorView>, LexState)
    decreases st.chars.len(), 1int,
{
    let tok = scan(st).0;
    let rest = scan(st).1;
    if rest.chars.len() < st.chars.len() {
        value_from(tok, rest)
    } else {
        eof_at(ParseStep::Value, rest)
    }
}

/// Parses a value whose first token `tok` has been read; `rest` follows it.
pub open spec fn value_from(tok: TokenView, rest: LexState) -> (
    Result<ValueView, ParseErrorView>,
    LexState,
)
    decreases rest.chars.len(), 2int,
{
    if tok.kind == TokenType::LeftCurlyBrace {
        object_items(rest, Seq::empty(), None)
    } else if tok.kind == TokenType::LeftSquareBrace {
        array_items(rest, Seq::empty())
    } else if tok.kind == TokenType::Negative {
        let inner = parse_value_spec(rest);
        (
            match inner.0 {
                Ok(v) => Ok(negated(v)),
                Err(e) => Err(e),
            },
            inner.1,
        )
    } else if is_literal(tok.kind) {
        match literal_value(tok) {
            Some(v) => (Ok(v), rest),
            None => (Err(ParseErrorView::ErrorToken(ParseStep::Value, invalid_literal(tok))), rest),
        }
    } else if tok.kind == TokenType::Identifier {
        (Ok(ValueView::Enum(tok.source)), rest)
    } else if tok.kind == TokenType::Error {
        (Err(ParseErrorView::ErrorToken(ParseStep::Value, tok)), rest)
    } else if tok.kind == TokenType::EOF {
        eof_at(ParseStep::Value, rest)
    } else {
        (
            Err(
                ParseErrorView::UnexpectedToken {
                    step: ParseStep::Value,
                    expected: value_expected(),
                    found: tok,
                    message: Seq::empty(),
                },
            ),
            rest,
        )
    }
}

/// The members of an object after its `{`: `fields` read so far, `name`
/// the field name waiting for its value.
pub open spec fn object_items(
    st: LexState,
    fields: Seq<(Seq<char>, ValueView)>,
    name: Option<Seq<char>>,
) -> (Result<ValueView, ParseErrorView>, LexState)
    decreases st.chars.len(), 0int,
{
    let tok = scan(st).0;
    let rest = scan(st).1;
    if rest.chars.len() >= st.chars.len() {
        eof_at(ParseStep::Object, rest)
    } else if tok.kind == TokenType::Identifier {
        object_items(rest, fields, Some(tok.source))
    } else if tok.kind == TokenType::Comma {
        object_items(rest, fields, name)
    } else if tok.kind == TokenType::RightCurlyBrace {
        (Ok(ValueView::Object(fields)), rest)
    } else if tok.kind == TokenType::Colon || tok.kind == TokenType::LeftCurlyBrace || tok.kind
        == TokenType::LeftSquareBrace {
        match name {
            None => (
                Err(
                    ParseErrorView::UnexpectedToken {
                        step: ParseStep::Object,
                        expected: seq![TokenType::Identifier],
                        found: tok,
                        message: "Expected a field name"@,
                    },
                ),
                rest,
            ),
            Some(n) => {
                let member = if tok.kind == TokenType::Colon {
                    parse_value_spec(rest)
                } else if tok.kind == TokenType::LeftCurlyBrace {
                    object_items(rest, Seq::empty(), None)
                } else {
                    array_items(rest, Seq::empty())
                };
                match member.0 {
                    Err(e) => (Err(e), member.1),
                    Ok(v) => if member.1.chars.len() < st.chars.len() {
                        object_items(member.1, set_field(fields, n, v), None)
                    } else {
                        eof_at(ParseStep::Object, member.1)
                    },
                }
            },
        }
    } else if tok.kind == TokenType::Error {
        (Err(ParseErrorView::ErrorToken(ParseStep::Object, tok)), rest)
    } else if tok.kind == TokenType::EOF {
        eof_at(ParseStep::Object, rest)
    } else {
        (
            Err(
                ParseErrorView::UnexpectedToken {
                    step: ParseStep::Object,
                    expected: object_expected(),
                    found: tok,
                    message: Seq::empty(),
                },
            ),
            rest,
        )
    }
}

/// The elements of an array after its `[`: `items` read so far.
pub open spec fn array_items(st: LexState, items: Seq<ValueView>) -> (
    Result<ValueView, ParseErrorView>,
    LexState,
)
    decreases st.chars.len(), 0int,
{
    let tok = scan(st).0;
    let rest = scan(st).1;
    if rest.chars.len() >= st.chars.len() {
        eof_at(ParseStep::Array, rest)
    } else if tok.kind == TokenType::RightSquareBrace {
        (Ok(ValueView::Array(items)), rest)
    } else if tok.kind == TokenType::Comma {
        array_items(rest, items)
    } else if tok.kind == TokenType::EOF {
        eof_at(ParseStep::Array, rest)
    } else if tok.kind == TokenType::Error {
        (Err(ParseErrorView::ErrorToken(ParseStep::Array, tok)), rest)
    } else {
        let element = value_from(tok, rest);
        match element.0 {
            Err(e) => (Err(e), element.1),
            Ok(v) => if element.1.chars.len() < st.chars.len() {
                array_items(element.1, items.push(v))
            } else {
                eof_at(ParseStep::Array, element.1)
            },
        }
    }
}

/// Parses a document: an object or an array.
pub open spec fn parse_document(st: LexState) -> (Result<ValueView, ParseErrorView>, LexState) {
    let tok = scan(st).0;
    let rest = scan(st).1;
    if tok.kind == TokenType::LeftCurlyBrace {
        object_items(rest, Seq::empty(), None)
    } else if tok.kind == TokenType::LeftSquareBrace {
        array_items(rest, Seq::empty())
    } else if tok.kind == TokenType::Error {
        (Err(ParseErrorView::ErrorToken(ParseStep::Start, tok)), rest)
    } else if tok.kind == TokenType::EOF {
        eof_at(ParseStep::Start, rest)
    } else {
        (
            Err(
                ParseErrorView::UnexpectedToken {
                    step: ParseStep::Start,
                    expected: start_expected(),
                    found: tok,
                    message: "SON files can only begin with either a { or ["@,
                },
            ),
            rest,
        )
    }
}

/// The state of a lexer at the start of some bytes.
pub open spec fn initial_state(data: Seq<u8>) -> LexState {
    LexState { chars: chunked_decode(Seq::empty(), data, TOKENIZER_BUFFER_SIZE as nat), line: 1, col: 0 }
}

/// Sets a field of an object under construction: see `set_field`.
pub(crate) fn insert_field(fields: &mut Vec<(String, Value)>, name: String, value: Value)
    ensures
        fields_view(final(fields)@) == set_field(fields_view(old(fields)@), name@, value.view()),
{
    let ghost fv = fields_view(fields@);
    let mut i: usize = fields.len();
    assert(fv.take(i as int) =~= fv);
    while i > 0
        invariant
            i <= fields.len(),
            fields@ == old(fields)@,
            fv == fields_view(fields@),
            field_index(fv, name@) == field_index(fv.take(i as int), name@),
        decreases i,
    {
        assert(fv.take(i as int).drop_last() =~= fv.take(i - 1));
        if fields[i - 1].0 == name {
            let ghost nv = value.view();
            fields.set(i - 1, (name, value));
            assert(fields_view(fields@) =~= set_field(fv, name@, nv));
            return;
        }
        i -= 1;
    }
    assert(fv.take(0) =~= Seq::<(Seq<char>, ValueView)>::empty());
    let ghost nv = value.view();
    fields.push((name, value));
    assert(fields_view(fields@) =~= set_field(fv, name@, nv));
}

/// The recursive-descent parser over a lexer.
pub struct SonParser {
    lexer: SonLexer,
}

impl SonParser {
    pub closed spec fn wf(self) -> bool {
        self.lexer.wf()
    }

    pub closed spec fn state(self) -> LexState {
        self.lexer.state()
    }

    /// A parser over the bytes of a document.
    pub fn new(data: Vec<u8>) -> (r: SonParser)
        ensures
            r.wf(),
            r.state() == initial_state(data@),
    {
        SonParser { lexer: SonLexer::new(data) }
    }

    /// Parses a document: see `parse_document`.
    pub fn parse(&mut self) -> (r: Result<Value, ParseError>)
        requires
            old(self).wf(),
        ensures
            final(self).wf(),
            result_view(r) == parse_document(old(self).state()).0,
            final(self).state() == parse_document(old(self).state()).1,
    {
        let token = self.lexer.next_token();
        match token.get_type() {
            TokenType::LeftCurlyBrace => self.parse_object(),
            TokenType::LeftSquareBrace => self.parse_array(),
            TokenType::Error => Err(ParseError::ErrorToken(ParseStep::Start, token)),
            TokenType::EOF => Err(ParseError::UnexpectedEOF(ParseStep::Start)),
            _ => {
                let expected = vec![TokenType::LeftCurlyBrace, TokenType::LeftSquareBrace];
                assert(expected@ =~= start_expected());
                Err(
                    ParseError::UnexpectedToken {
                        step: ParseStep::Start,
                        expected,
                        found: token,
                        message: "SON files can only begin with either a { or [".to_owned(),
                    },
                )
            },
        }
    }

    fn parse_value(&mut self) -> (r: Result<Value, ParseError>)
        requires
            old(self).wf(),
        ensures
            final(self).wf(),
            result_view(r) == parse_value_spec(old(self).state()).0,
            final(self).state() == parse_value_spec(old(self).state()).1,
            final(self).state().chars.len() <= old(self).state().chars.len(),
        decreases old(self).state().chars.len(), 1int,
    {
        let ghost st = self.state();
        let token = self.lexer.next_token();
        proof {
            lemma_scan(st);
        }
        if token.get_type() == TokenType::EOF {
            return Err(ParseError::UnexpectedEOF(ParseStep::Value));
        }
        self.value_from(token)
    }

    fn value_from(&mut self, token: Token) -> (r: Result<Value, ParseError>)
        requires
            old(self).wf(),
        ensures
            final(self).wf(),
            result_view(r) == value_from(token@, old(self).state()).0,
            final(self).state() == value_from(token@, old(self).state()).1,
            final(self).state().chars.len() <= old(self).state().chars.len(),
        decreases old(self).state().chars.len(), 2int,
    {
        match token.get_type() {
            TokenType::LeftCurlyBrace => self.parse_object(),
            TokenType::LeftSquareBrace => self.parse_array(),
            TokenType::Negative => match self.parse_value() {
                Ok(v) => Ok(v.negate()),
                Err(e) => Err(e),
            },
            TokenType::True
            | TokenType::False
            | TokenType::Null
            | TokenType::IntegerLiteral
            | TokenType::FloatLiteral
            | TokenType::StringLiteral
            | TokenType::CharLiteral => match token.get_value() {
                Some(v) => Ok(v),
                None => {
                    let message = if token.get_type() == TokenType::CharLiteral {
                        "Char literal must hold exactly one character"
                    } else {
                        "Literal out of range"
                    };
                    let bad = Token::new_error(token.get_line(), token.get_col(), message.to_owned());
                    Err(ParseError::ErrorToken(ParseStep::Value, bad))
                },
            },
            TokenType::Identifier => Ok(Value::Enum(token.get_source())),
            TokenType::Error => Err(ParseError::ErrorToken(ParseStep::Value, token)),
            TokenType::EOF => Err(ParseError::UnexpectedEOF(ParseStep::Value)),
            _ => {
                let expected = vec![
                    TokenType::LeftCurlyBrace,
                    TokenType::LeftSquareBrace,
                    TokenType::Negative,
                    TokenType::True,
                    TokenType::False,
                    TokenType::Null,
                    TokenType::IntegerLiteral,
                    TokenType::FloatLiteral,
                    TokenType::StringLiteral,
                    TokenType::CharLiteral,
                    TokenType::Identifier,
                ];
                assert(expected@ =~= value_expected());
                Err(
                    ParseError::UnexpectedToken {
                        step: ParseStep::Value,
                        expected,
                        found: token,
                        message: String::new(),
                    },
                )
            },
        }
    }

    fn parse_object(&mut self) -> (r: Result<Value, ParseError>)
        requires
            old(self).wf(),
        ensures
            final(self).wf(),
            result_view(r) == object_items(old(self).state(), Seq::empty(), None).0,
            final(self).state() == object_items(old(self).state(), Seq::empty(), None).1,
            final(self).state().chars.len() <= old(self).state().chars.len(),
        decreases old(self).state().chars.len(), 0int,
    {
        let mut fields: Vec<(String, Value)> = Vec::new();
        let mut field_name: Option<String> = None;
        assert(fields_view(fields@) =~= Seq::empty());
        loop
            invariant
                self.wf(),
                self.state().chars.len() <= old(self).state().chars.len(),
                object_items(
                    self.state(),
                    fields_view(fields@),
                    match field_name {
                        Some(n) => Some(n@),
                        None => None,
                    },
                ) == object_items(old(self).state(), Seq::empty(), None),
            decreases self.state().chars.len(),
        {
            let ghost st = self.state();
            let ghost fv = fields_view(fields@);
            let token = self.lexer.next_token();
            proof {
                lemma_scan(st);
            }
            match token.get_type() {
                TokenType::Identifier => {
                    field_name = Some(token.get_source());
                },
                TokenType::Comma => {},
                TokenType::RightCurlyBrace => {
                    let r = Value::Object(fields);
                    assert(r.view()->Object_0 =~= fv);
                    return Ok(r);
                },
                TokenType::Colon | TokenType::LeftCurlyBrace | TokenType::LeftSquareBrace => {
                    let name = field_name;
                    field_name = None;
                    match name {
                        None => {
                            let expected = vec![TokenType::Identifier];
                            assert(expected@ =~= seq![TokenType::Identifier]);
                            return Err(
                                ParseError::UnexpectedToken {
                                    step: ParseStep::Object,
                                    expected,
                                    found: token,
                                    message: "Expected a field name".to_owned(),
                                },
                            );
                        },
                        Some(n) => {
                            let member = if token.get_type() == TokenType::Colon {
                                self.parse_value()
                            } else if token.get_type() == TokenType::LeftCurlyBrace {
                                self.parse_object()
                            } else {
                                self.parse_array()
                            };
                            match member {
                                Err(e) => return Err(e),
                                Ok(v) => insert_field(&mut fields, n, v),
                            }
                        },
                    }
                },
                TokenType::Error => return Err(ParseError::ErrorToken(ParseStep::Object, token)),
                TokenType::EOF => return Err(ParseError::UnexpectedEOF(ParseStep::Object)),
                _ => {
                    let expected = vec![
                        TokenType::LeftCurlyBrace,
                        TokenType::RightCurlyBrace,
                        TokenType::LeftSquareBrace,
                        TokenType::Colon,
                        TokenType::Comma,
                        TokenType::Identifier,
                    ];
                    assert(expected@ =~= object_expected());
                    return Err(
                        ParseError::UnexpectedToken {
                            step: ParseStep::Object,
                            expected,
                            found: token,
                            message: String::new(),
                        },
                    );
                },
            }
        }
    }

    fn parse_array(&mut self) -> (r: Result<Value, ParseError>)
        requires
            old(self).wf(),
        ensures
            final(self).wf(),
            result_view(r) == array_items(old(self).state(), Seq::empty()).0,
            final(self).state() == array_items(old(self).state(), Seq::empty()).1,
            final(self).state().chars.len() <= old(self).state().chars.len(),
        decreases old(self).state().chars.len(), 0int,
    {
        let mut items: Vec<Value> = Vec::new();
        assert(items_view(items@) =~= Seq::empty());
        loop
            invariant
                self.wf(),
                self.state().chars.len() <= old(self).state().chars.len(),
                array_items(self.state(), items_view(items@)) == array_items(
                    old(self).state(),
                    Seq::empty(),
                ),
            decreases self.state().chars.len(),
        {
            let ghost st = self.state();
            let ghost iv = items_view(items@);
            let token = self.lexer.next_token();
            proof {
                lemma_scan(st);
            }
            match token.get_type() {
                TokenType::RightSquareBrace => {
                    let r = Value::Array(items);
                    assert(r.view()->Array_0 =~= iv);
                    return Ok(r);
                },
                TokenType::Comma => {},
                TokenType::EOF => return Err(ParseError::UnexpectedEOF(ParseStep::Array)),
                TokenType::Error => return Err(ParseError::ErrorToken(ParseStep::Array, token)),
                _ => {
                    match self.value_from(token) {
                        Err(e) => return Err(e),
                        Ok(v) => {
                            let ghost vv = v.view();
                            items.push(v);
                            assert(items_view(items@) =~= iv.push(vv));
                        },
                    }
                },
            }
        }
    }
}

} // verus!
