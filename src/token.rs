use crate::text::{
    all_digits, chars_of, digits_value, integer_text, parse_digits, push_integer, push_text,
    string_from_chars,
};
use crate::value::{lemma_char_view, Decimal, Value, ValueView};
use vstd::prelude::*;

verus! {

/// The kinds of tokens.
#[derive(Debug, Clone, Copy, PartialEq, Eq, Structural)]
pub enum TokenType {
    LeftParen,
    RightParen,
    LeftCurlyBrace,
    RightCurlyBrace,
    LeftSquareBrace,
    RightSquareBrace,
    Comma,
    Dot,
    Colon,
    Negative,
    True,
    False,
    Null,
    IntegerLiteral,
    FloatLiteral,
    StringLiteral,
    CharLiteral,
    Identifier,
    Error,
    EOF,
}

/// The name of a token kind.
pub open spec fn kind_label(k: TokenType) -> Seq<char> {
    match k {
        TokenType::LeftParen => "LeftParen"@,
        TokenType::RightParen => "RightParen"@,
        TokenType::LeftCurlyBrace => "LeftCurlyBrace"@,
        TokenType::RightCurlyBrace => "RightCurlyBrace"@,
        TokenType::LeftSquareBrace => "LeftSquareBrace"@,
        TokenType::RightSquareBrace => "RightSquareBrace"@,
        TokenType::Comma => "Comma"@,
        TokenType::Dot => "Dot"@,
        TokenType::Colon => "Colon"@,
        TokenType::Negative => "Negative"@,
        TokenType::True => "True"@,
        TokenType::False => "False"@,
        TokenType::Null => "Null"@,
        TokenType::IntegerLiteral => "IntegerLiteral"@,
        TokenType::FloatLiteral => "FloatLiteral"@,
        TokenType::StringLiteral => "StringLiteral"@,
        TokenType::CharLiteral => "CharLiteral"@,
        TokenType::Identifier => "Identifier"@,
        TokenType::Error => "Error"@,
        TokenType::EOF => "EOF"@,
    }
}

impl TokenType {
    /// The name of this kind.
    pub fn label(&self) -> (r: &'static str)
        ensures
            r@ == kind_label(*self),
    {
        match self {
            TokenType::LeftParen => "LeftParen",
            TokenType::RightParen => "RightParen",
            TokenType::LeftCurlyBrace => "LeftCurlyBrace",
            TokenType::RightCurlyBrace => "RightCurlyBrace",
            TokenType::LeftSquareBrace => "LeftSquareBrace",
            TokenType::RightSquareBrace => "RightSquareBrace",
            TokenType::Comma => "Comma",
            TokenType::Dot => "Dot",
            TokenType::Colon => "Colon",
            TokenType::Negative => "Negative",
            TokenType::True => "True",
            TokenType::False => "False",
            TokenType::Null => "Null",
            TokenType::IntegerLiteral => "IntegerLiteral",
            TokenType::FloatLiteral => "FloatLiteral",
            TokenType::StringLiteral => "StringLiteral",
            TokenType::CharLiteral => "CharLiteral",
            TokenType::Identifier => "Identifier",
            TokenType::Error => "Error",
            TokenType::EOF => "EOF",
        }
    }
}

/// A list of token kinds: `[A, B]`.
pub open spec fn kinds_text(ks: Seq<TokenType>) -> Seq<char>
    decreases ks.len(),
{
    if ks.len() == 0 {
        seq!['[', ']']
    } else {
        kinds_text(ks.drop_last()).drop_last() + (if ks.len() > 1 {
            seq![',', ' ']
        } else {
            Seq::empty()
        }) + kind_label(ks.last()) + seq![']']
    }
}

/// Appends the text of a list of token kinds.
pub fn push_kinds(out: &mut Vec<char>, ks: &Vec<TokenType>)
    ensures
        final(out)@ == old(out)@ + kinds_text(ks@),
{
    let ghost base = out@;
    out.push('[');
    let mut i: usize = 0;
    while i < ks.len()
        invariant
            i <= ks.len(),
            out@ == base + kinds_text(ks@.take(i as int)).drop_last(),
        decreases ks.len() - i,
    {
        assert(ks@.take(i + 1).drop_last() =~= ks@.take(i as int));
        if i > 0 {
            out.push(',');
            out.push(' ');
        }
        push_text(out, ks[i].label());
        let ghost next = kinds_text(ks@.take(i + 1));
        assert(next =~= kinds_text(ks@.take(i as int)).drop_last() + (if i + 1 > 1 {
            seq![',', ' ']
        } else {
            Seq::<char>::empty()
        }) + kind_label(ks[i as int]) + seq![']']);
        assert(out@ =~= base + next.drop_last());
        i += 1;
    }
    assert(ks@.take(ks.len() as int) =~= ks@);
    out.push(']');
    proof {
        lemma_kinds_text_ends(ks@);
    }
    assert(out@ =~= base + kinds_text(ks@));
}

proof fn lemma_kinds_text_ends(ks: Seq<TokenType>)
    ensures
        kinds_text(ks).len() > 0,
        kinds_text(ks).last() == ']',
        kinds_text(ks) == kinds_text(ks).drop_last().push(']'),
{
    assert(kinds_text(ks) =~= kinds_text(ks).drop_last().push(']'));
}

/// Where a token starts: `[line:col]`.
pub open spec fn position_text(t: TokenView) -> Seq<char> {
    seq!['['] + integer_text(t.line as int) + seq![':'] + integer_text(t.col as int) + seq![']']
}

/// The text of a token for diagnostics.
pub open spec fn token_text(t: TokenView) -> Seq<char> {
    match t.kind {
        TokenType::IntegerLiteral => position_text(t) + " Integer: "@ + t.source,
        TokenType::FloatLiteral => position_text(t) + " Float: "@ + t.source,
        TokenType::StringLiteral => position_text(t) + " String: "@ + t.source,
        TokenType::CharLiteral => position_text(t) + " Char: "@ + t.source,
        TokenType::Identifier => position_text(t) + " Identifier: "@ + t.source,
        TokenType::Error => "[Error] "@ + position_text(t) + seq![' '] + t.source,
        _ => position_text(t) + seq![' '] + kind_label(t.kind),
    }
}

/// The model of a token: its kind, where it starts, and its text (for an
/// `Error` token, the message).
pub struct TokenView {
    pub kind: TokenType,
    pub line: u32,
    pub col: u32,
    pub source: Seq<char>,
}

/// A token as the lexer produces it.
#[derive(Debug)]
pub struct Token {
    token_type: TokenType,
    line: u32,
    col: u32,
    source: String,
}

impl View for Token {
    type V = TokenView;

    closed spec fn view(&self) -> TokenView {
        TokenView { kind: self.token_type, line: self.line, col: self.col, source: self.source@ }
    }
}

impl Clone for Token {
    fn clone(&self) -> (r: Token)
        ensures
            r@ == self@,
    {
        Token {
            token_type: self.token_type,
            line: self.line,
            col: self.col,
            source: self.source.clone(),
        }
    }
}

/// The text of a string literal once its escapes are read: `\"`, `\n` and
/// `\t` stand for a quote, a newline and a tab; any other backslash stays.
pub open spec fn unescape(s: Seq<char>) -> Seq<char>
    decreases s.len(),
{
    if s.len() == 0 {
        s
    } else if s.len() >= 2 && s[0] == '\\' && s[1] == '"' {
        seq!['"'] + unescape(s.skip(2))
    } else if s.len() >= 2 && s[0] == '\\' && s[1] == 'n' {
        seq!['\n'] + unescape(s.skip(2))
    } else if s.len() >= 2 && s[0] == '\\' && s[1] == 't' {
        seq!['\t'] + unescape(s.skip(2))
    } else {
        seq![s[0]] + unescape(s.skip(1))
    }
}

/// The value that a literal token denotes, if any. A char literal denotes a
/// value only when it holds exactly one character; an integer literal only
/// when it is made of digits and fits in an `i128`.
pub open spec fn literal_value(t: TokenView) -> Option<ValueView> {
    match t.kind {
        TokenType::True => Some(ValueView::Bool(true)),
        TokenType::False => Some(ValueView::Bool(false)),
        TokenType::Null => Some(ValueView::Null),
        TokenType::IntegerLiteral => if all_digits(t.source) && digits_value(t.source) <= i128::MAX {
            Some(ValueView::Integer(digits_value(t.source)))
        } else {
            None
        },
        TokenType::FloatLiteral => Some(ValueView::Float(false, t.source)),
        TokenType::StringLiteral => if t.source.len() >= 2 {
            Some(ValueView::String(unescape(t.source.subrange(1, t.source.len() - 1))))
        } else {
            None
        },
        TokenType::CharLiteral => if t.source.len() == 3 {
            Some(ValueView::Char(t.source[1]))
        } else {
            None
        },
        _ => None,
    }
}

/// Reads the escapes of a string literal's body.
fn unescape_chars(s: &Vec<char>, start: usize, end: usize) -> (r: Vec<char>)
    requires
        start <= end <= s.len(),
    ensures
        r@ == unescape(s@.subrange(start as int, end as int)),
{
    let ghost body = s@.subrange(start as int, end as int);
    let mut out: Vec<char> = Vec::new();
    let mut i: usize = start;
    while i < end
        invariant
            start <= i <= end <= s.len(),
            body == s@.subrange(start as int, end as int),
            out@ + unescape(s@.subrange(i as int, end as int)) == unescape(body),
        decreases end - i,
    {
        let ghost rest = s@.subrange(i as int, end as int);
        let c = s[i];
        if c == '\\' && i + 1 < end && (s[i + 1] == '"' || s[i + 1] == 'n' || s[i + 1] == 't') {
            let e = s[i + 1];
            let r: char = if e == '"' { '"' } else if e == 'n' { '\n' } else { '\t' };
            assert(rest.skip(2) =~= s@.subrange(i + 2, end as int));
            out.push(r);
            assert(out@ + unescape(s@.subrange(i + 2, end as int)) =~= unescape(body));
            i += 2;
        } else {
            assert(rest.skip(1) =~= s@.subrange(i + 1, end as int));
            out.push(c);
            assert(out@ + unescape(s@.subrange(i + 1, end as int)) =~= unescape(body));
            i += 1;
        }
    }
    assert(out@ =~= unescape(body));
    out
}

impl Token {
    pub fn new(token_type: TokenType, line: u32, col: u32, source: String) -> (r: Token)
        ensures
            r@ == (TokenView { kind: token_type, line, col, source: source@ }),
    {
        Token { token_type, line, col, source }
    }

    /// An `Error` token whose text is the message.
    pub fn new_error(line: u32, col: u32, message: String) -> (r: Token)
        ensures
            r@ == (TokenView { kind: TokenType::Error, line, col, source: message@ }),
    {
        Token::new(TokenType::Error, line, col, message)
    }

    pub fn get_type(&self) -> (r: TokenType)
        ensures
            r == self@.kind,
    {
        self.token_type
    }

    pub fn get_source(&self) -> (r: String)
        ensures
            r@ == self@.source,
    {
        self.source.clone()
    }

    pub fn get_line(&self) -> (r: u32)
        ensures
            r == self@.line,
    {
        self.line
    }

    pub fn get_col(&self) -> (r: u32)
        ensures
            r == self@.col,
    {
        self.col
    }

    /// Appends the text of this token: see `token_text`.
    pub fn push_description(&self, out: &mut Vec<char>)
        ensures
            final(out)@ == old(out)@ + token_text(self@),
    {
        let ghost base = out@;
        if self.token_type == TokenType::Error {
            push_text(out, "[Error] ");
        }
        out.push('[');
        push_integer(self.line as i128, out);
        out.push(':');
        push_integer(self.col as i128, out);
        out.push(']');
        match self.token_type {
            TokenType::IntegerLiteral => push_text(out, " Integer: "),
            TokenType::FloatLiteral => push_text(out, " Float: "),
            TokenType::StringLiteral => push_text(out, " String: "),
            TokenType::CharLiteral => push_text(out, " Char: "),
            TokenType::Identifier => push_text(out, " Identifier: "),
            _ => out.push(' '),
        }
        match self.token_type {
            TokenType::IntegerLiteral
            | TokenType::FloatLiteral
            | TokenType::StringLiteral
            | TokenType::CharLiteral
            | TokenType::Identifier
            | TokenType::Error => push_text(out, self.source.as_str()),
            _ => push_text(out, self.token_type.label()),
        }
        assert(out@ =~= base + token_text(self@));
    }

    /// The text of this token for diagnostics: see `token_text`.
    pub fn describe(&self) -> (r: String)
        ensures
            r@ == token_text(self@),
    {
        let mut out: Vec<char> = Vec::new();
        self.push_description(&mut out);
        assert(out@ =~= token_text(self@));
        string_from_chars(&out)
    }

    /// The value that this token denotes, if it is a literal: see `literal_value`.
    pub fn get_value(&self) -> (r: Option<Value>)
        ensures
            match r {
                Some(v) => literal_value(self@) == Some(v.view()),
                None => literal_value(self@) is None,
            },
    {
        match self.token_type {
            TokenType::True => Some(Value::Bool(true)),
            TokenType::False => Some(Value::Bool(false)),
            TokenType::Null => Some(Value::Null),
            TokenType::IntegerLiteral => {
                let digits = chars_of(self.source.as_str());
                match parse_digits(&digits) {
                    Some(v) => Some(Value::Integer(v)),
                    None => None,
                }
            },
            TokenType::FloatLiteral => Some(
                Value::Float(Decimal { negative: false, digits: self.source.clone() }),
            ),
            TokenType::StringLiteral => {
                let chars = chars_of(self.source.as_str());
                if chars.len() >= 2 {
                    let body = unescape_chars(&chars, 1, chars.len() - 1);
                    Some(Value::String(string_from_chars(&body)))
                } else {
                    None
                }
            },
            TokenType::CharLiteral => {
                let chars = chars_of(self.source.as_str());
                if chars.len() == 3 {
                    let c = chars[1];
                    proof {
                        lemma_char_view(c);
                    }
                    Some(Value::Char(c))
                } else {
                    None
                }
            },
            _ => None,
        }
    }
}

} // verus!
