use crate::lexer::{
    chunked_decode, utf8_prefix_len,
    advance_by, char_len, digits_len, ident_len, is_blank, is_ident_char, keyword_kind, lemma_advance_by_chars,
    lex, punct_kind, scan, skip_trivia, step, string_len, LexState,
};
use crate::error::ParseErrorView;
use crate::parser::{initial_state, array_items, field_index, object_items, parse_document, parse_value_spec, set_field, value_from};
use crate::printer::{escape, escape_char, render, render_fields, render_items};
use crate::value::{negated, ValueView};
use crate::text::{decimal, digit_char, digits_value, is_digit};
use crate::token::{unescape, TokenType};
use vstd::prelude::*;
use vstd::string::StringSliceAdditionalSpecFns;
use vstd::utf8::{
    decode_utf8, decode_utf8_split, encode_utf8, encode_utf8_decode_utf8, encode_utf8_valid_utf8,
    is_char_boundary, length_of_first_scalar, pop_first_scalar, valid_first_scalar, valid_utf8,
    valid_utf8_split,
};

verus! {

/// Text made only of whitespace.
pub open spec fn blank_text(s: Seq<char>) -> bool {
    forall|i: int| 0 <= i < s.len() ==> is_blank(#[trigger] s[i])
}

/// A name that reads back as an identifier: letters and underscores, and
/// not a keyword.
pub open spec fn identifier(s: Seq<char>) -> bool {
    &&& s.len() > 0
    &&& forall|i: int| 0 <= i < s.len() ==> is_ident_char(#[trigger] s[i])
    &&& keyword_kind(s) == TokenType::Identifier
}

/// Digits, a point and more digits.
pub open spec fn decimal_text(d: Seq<char>) -> bool {
    let k = digits_len(d);
    &&& 0 < k
    &&& k + 1 < d.len()
    &&& d[k as int] == '.'
    &&& digits_len(d.skip(k + 1int)) == d.len() - k - 1
}

/// The values that the printer writes in a form the parser reads back as
/// they are: integers other than the least `i128`, decimals with a
/// fractional part, strings without backslashes, chars other than a quote,
/// tags and field names that are identifiers, and no name twice in an
/// object.
pub open spec fn printable(v: ValueView) -> bool
    decreases v,
{
    match v {
        ValueView::Integer(i) => i128::MIN < i <= i128::MAX,
        ValueView::Float(_, d) => decimal_text(d),
        ValueView::String(s) => no_backslash(s),
        ValueView::Char(c) => c != '\'',
        ValueView::Enum(s) => identifier(s),
        ValueView::Array(items) => forall|i: int|
            0 <= i < items.len() ==> printable(#[trigger] items[i]),
        ValueView::Object(fields) => {
            &&& forall|i: int|
                0 <= i < fields.len() ==> identifier(#[trigger] fields[i].0) && printable(fields[i].1)
            &&& forall|i: int, j: int|
                0 <= i < j < fields.len() ==> (#[trigger] fields[i]).0 != (#[trigger] fields[j]).0
        },
        _ => true,
    }
}

/// A token kind that can open a value.
pub open spec fn opens_value(k: TokenType) -> bool {
    k != TokenType::RightSquareBrace && k != TokenType::Comma && k != TokenType::EOF && k
        != TokenType::Error
}

proof fn lemma_skip_blank(st: LexState, b: Seq<char>, t: Seq<char>)
    requires
        st.chars == b + t,
        blank_text(b),
        t.len() > 0,
        !is_blank(t[0]),
        t[0] != '/',
    ensures
        skip_trivia(st, false).chars == t,
    decreases b.len(),
{
    if b.len() == 0 {
        assert(st.chars =~= t);
    } else {
        assert(st.chars[0] == b[0]);
        let next = step(st);
        assert(next.chars =~= b.skip(1) + t);
        assert forall|i: int| 0 <= i < b.skip(1).len() implies is_blank(#[trigger] b.skip(1)[i]) by {
            assert(b.skip(1)[i] == b[i + 1]);
        }
        lemma_skip_blank(next, b.skip(1), t);
    }
}

/// After whitespace `b`, the token that `lex` finds at the start of
/// `tok + rest` is read, and `rest` is what is left.
proof fn lemma_scan_token(st: LexState, b: Seq<char>, tok: Seq<char>, rest: Seq<char>)
    requires
        st.chars == b + tok + rest,
        blank_text(b),
        tok.len() > 0,
        !is_blank(tok[0]),
        tok[0] != '/',
        lex(tok + rest).1 == tok.len(),
        lex(tok + rest).0 != TokenType::Error,
    ensures
        scan(st).0.kind == lex(tok + rest).0,
        scan(st).0.source == tok,
        scan(st).1.chars == rest,
        rest.len() < st.chars.len(),
{
    let t = tok + rest;
    assert(st.chars =~= b + t);
    lemma_skip_blank(st, b, t);
    let ws = skip_trivia(st, false);
    lemma_advance_by_chars(ws, tok.len());
    assert(t.skip(tok.len() as int) =~= rest);
    assert(t.take(tok.len() as int) =~= tok);
}

proof fn lemma_digits_len_all(a: Seq<char>, b: Seq<char>)
    requires
        forall|i: int| 0 <= i < a.len() ==> is_digit(#[trigger] a[i]),
        b.len() == 0 || !is_digit(b[0]),
    ensures
        digits_len(a + b) == a.len(),
    decreases a.len(),
{
    if a.len() == 0 {
        assert(a + b =~= b);
    } else {
        assert((a + b).skip(1) =~= a.skip(1) + b);
        assert((a + b)[0] == a[0]);
        lemma_digits_len_all(a.skip(1), b);
    }
}

proof fn lemma_digits_len_prefix(a: Seq<char>, b: Seq<char>)
    requires
        digits_len(a) < a.len(),
    ensures
        digits_len(a + b) == digits_len(a),
    decreases a.len(),
{
    assert((a + b)[0] == a[0]);
    if is_digit(a[0]) {
        assert((a + b).skip(1) =~= a.skip(1) + b);
        lemma_digits_len_prefix(a.skip(1), b);
    }
}

proof fn lemma_ident_len_all(a: Seq<char>, b: Seq<char>)
    requires
        forall|i: int| 0 <= i < a.len() ==> is_ident_char(#[trigger] a[i]),
        b.len() == 0 || !is_ident_char(b[0]),
    ensures
        ident_len(a + b) == a.len(),
    decreases a.len(),
{
    if a.len() == 0 {
        assert(a + b =~= b);
    } else {
        assert((a + b).skip(1) =~= a.skip(1) + b);
        assert((a + b)[0] == a[0]);
        lemma_ident_len_all(a.skip(1), b);
    }
}

proof fn lemma_digit_char(d: int)
    requires
        0 <= d <= 9,
    ensures
        is_digit(digit_char(d)),
        crate::text::digit_value(digit_char(d)) == d,
{
    assert('0' as int == 48);
    assert('9' as int == 57);
    assert('1' as int == 49 && '2' as int == 50 && '3' as int == 51 && '4' as int == 52);
    assert('5' as int == 53 && '6' as int == 54 && '7' as int == 55 && '8' as int == 56);
}

proof fn lemma_decimal(n: nat)
    ensures
        decimal(n).len() > 0,
        forall|i: int| 0 <= i < decimal(n).len() ==> is_digit(#[trigger] decimal(n)[i]),
        digits_value(decimal(n)) == n,
    decreases n,
{
    lemma_digit_char((n % 10) as int);
    if n < 10 {
        assert(decimal(n).drop_last() =~= Seq::<char>::empty());
        assert(digits_value(Seq::<char>::empty()) == 0);
        assert(n % 10 == n);
        assert(decimal(n).last() == digit_char(n as int));
    } else {
        lemma_decimal(n / 10);
        let s = decimal(n);
        assert(s.drop_last() =~= decimal(n / 10));
        assert forall|i: int| 0 <= i < s.len() implies is_digit(#[trigger] s[i]) by {
            if i < s.len() - 1 {
                assert(s[i] == decimal(n / 10)[i]);
            }
        }
        assert(s.last() == digit_char((n % 10) as int));
        assert(digits_value(s) == (n / 10) * 10 + (n % 10) as int);
        assert((n / 10) * 10 + n % 10 == n) by (nonlinear_arith);
    }
}

/// An identifier followed by a character that cannot continue it.
proof fn lemma_lex_identifier(s: Seq<char>, rest: Seq<char>)
    requires
        s.len() > 0,
        forall|i: int| 0 <= i < s.len() ==> is_ident_char(#[trigger] s[i]),
        rest.len() > 0,
        !is_ident_char(rest[0]),
    ensures
        lex(s + rest) == (keyword_kind(s), s.len()),
{
    lemma_ident_len_all(s, rest);
    let t = s + rest;
    assert(t[0] == s[0]);
    assert(t.take(s.len() as int) =~= s);
}

/// The digits of a natural number followed by a newline.
proof fn lemma_lex_natural(n: nat, rest: Seq<char>)
    requires
        rest.len() > 0,
        rest[0] == '\n',
    ensures
        lex(decimal(n) + rest) == (TokenType::IntegerLiteral, decimal(n).len()),
{
    lemma_decimal(n);
    lemma_digits_len_all(decimal(n), rest);
    let t = decimal(n) + rest;
    assert(t[0] == decimal(n)[0]);
    assert(t[decimal(n).len() as int] == '\n');
}

/// A decimal followed by a newline.
proof fn lemma_lex_decimal(d: Seq<char>, rest: Seq<char>)
    requires
        decimal_text(d),
        rest.len() > 0,
        rest[0] == '\n',
    ensures
        lex(d + rest) == (TokenType::FloatLiteral, d.len()),
{
    let k = digits_len(d);
    let t = d + rest;
    lemma_digits_len_prefix(d, rest);
    crate::lexer::lemma_digits_len(d);
    let frac = d.skip(k + 1int);
    crate::lexer::lemma_digits_len(frac);
    assert forall|i: int| 0 <= i < frac.len() implies is_digit(#[trigger] frac[i]) by {}
    lemma_digits_len_all(frac, rest);
    assert(t.skip(k + 1int) =~= frac + rest);
    assert(t[0] == d[0]);
    assert(t[k as int] == d[k as int]);
    assert(t[k + 1int] == frac[0]);
}

/// A char literal around a character other than a quote.
proof fn lemma_lex_char(c: char, rest: Seq<char>)
    requires
        c != '\'',
    ensures
        lex(seq!['\'', c, '\''] + rest) == (TokenType::CharLiteral, 3nat),
{
    let t = seq!['\'', c, '\''] + rest;
    assert(t.skip(1) =~= seq![c, '\''] + rest);
    assert(t.skip(1).skip(1) =~= seq!['\''] + rest);
    assert(char_len(seq!['\''] + rest) == Some(0nat));
    assert(char_len(seq![c, '\''] + rest) == Some(1nat));
}

proof fn lemma_blank_concat(a: Seq<char>, b: Seq<char>)
    requires
        blank_text(a),
        blank_text(b),
    ensures
        blank_text(a + b),
{
    assert forall|i: int| 0 <= i < (a + b).len() implies is_blank(#[trigger] (a + b)[i]) by {
        if i < a.len() {
            assert((a + b)[i] == a[i]);
        } else {
            assert((a + b)[i] == b[i - a.len()]);
        }
    }
}

/// The digits of a natural number that fits, after whitespace.
proof fn lemma_read_natural(st: LexState, b: Seq<char>, n: nat, rest: Seq<char>)
    requires
        st.chars == b + decimal(n) + seq!['\n'] + rest,
        blank_text(b),
        n <= i128::MAX,
    ensures
        parse_value_spec(st).0 == Ok::<ValueView, ParseErrorView>(ValueView::Integer(n as int)),
        parse_value_spec(st).1.chars == seq!['\n'] + rest,
        scan(st).0.kind == TokenType::IntegerLiteral,
{
    lemma_decimal(n);
    lemma_lex_natural(n, seq!['\n'] + rest);
    assert(st.chars =~= b + decimal(n) + (seq!['\n'] + rest));
    lemma_scan_token(st, b, decimal(n), seq!['\n'] + rest);
}

/// A decimal, after whitespace.
proof fn lemma_read_decimal(st: LexState, b: Seq<char>, d: Seq<char>, rest: Seq<char>)
    requires
        st.chars == b + d + seq!['\n'] + rest,
        blank_text(b),
        decimal_text(d),
    ensures
        parse_value_spec(st).0 == Ok::<ValueView, ParseErrorView>(ValueView::Float(false, d)),
        parse_value_spec(st).1.chars == seq!['\n'] + rest,
        scan(st).0.kind == TokenType::FloatLiteral,
{
    crate::lexer::lemma_digits_len(d);
    lemma_lex_decimal(d, seq!['\n'] + rest);
    assert(st.chars =~= b + d + (seq!['\n'] + rest));
    lemma_scan_token(st, b, d, seq!['\n'] + rest);
}

/// The text of a value, after whitespace, reads back as the value; the
/// newline that ends it is left.
pub proof fn lemma_read_value(
    v: ValueView,
    unit: Seq<char>,
    pad: Seq<char>,
    st: LexState,
    b: Seq<char>,
    rest: Seq<char>,
)
    requires
        printable(v),
        blank_text(unit),
        blank_text(pad),
        blank_text(b),
        st.chars == b + render(v, unit, pad) + rest,
    ensures
        parse_value_spec(st).0 == Ok::<ValueView, ParseErrorView>(v),
        parse_value_spec(st).1.chars == seq!['\n'] + rest,
        opens_value(scan(st).0.kind),
        scan(st).0.kind == TokenType::LeftCurlyBrace <==> v is Object,
        scan(st).0.kind == TokenType::LeftSquareBrace <==> v is Array,
    decreases v, 0int,
{
    match v {
        ValueView::Array(items) => {
            let tok = seq!['['];
            let cpad = pad + unit;
            let inner = seq!['\n'] + render_items(items, unit, cpad) + pad + seq![']', '\n'] + rest;
            assert(st.chars =~= b + tok + inner);
            lemma_scan_token(st, b, tok, inner);
            assert(items.skip(0) =~= items);
            assert(items.take(0) =~= Seq::<ValueView>::empty());
            lemma_read_items(items, 0, unit, pad, scan(st).1, rest);
        },
        ValueView::Object(fields) => {
            let tok = seq!['{'];
            let cpad = pad + unit;
            let inner = seq!['\n'] + render_fields(fields, unit, cpad) + pad + seq!['}', '\n'] + rest;
            assert(st.chars =~= b + tok + inner);
            lemma_scan_token(st, b, tok, inner);
            assert(fields.skip(0) =~= fields);
            assert(fields.take(0) =~= Seq::<(Seq<char>, ValueView)>::empty());
            lemma_read_fields(fields, 0, unit, pad, scan(st).1, rest);
        },
        _ => lemma_read_scalar(v, unit, pad, st, b, rest),
    }
}

/// A keyword literal (`null`, `true`, `false`), after whitespace.
proof fn lemma_read_keyword(st: LexState, b: Seq<char>, tok: Seq<char>, rest: Seq<char>)
    requires
        tok == seq!['n', 'u', 'l', 'l'] || tok == seq!['t', 'r', 'u', 'e'] || tok == seq![
            'f',
            'a',
            'l',
            's',
            'e',
        ],
        blank_text(b),
        st.chars == b + tok + seq!['\n'] + rest,
    ensures
        parse_value_spec(st).0 == Ok::<ValueView, ParseErrorView>(
            if tok[0] == 'n' {
                ValueView::Null
            } else {
                ValueView::Bool(tok[0] == 't')
            },
        ),
        parse_value_spec(st).1.chars == seq!['\n'] + rest,
        scan(st).0.kind == keyword_kind(tok),
{
    let nl = seq!['\n'] + rest;
    assert(st.chars =~= b + tok + nl);
    lemma_lex_identifier(tok, nl);
    lemma_scan_token(st, b, tok, nl);
}

/// A minus sign and then a value that reads back as `inner`.
proof fn lemma_read_negative(st: LexState, b: Seq<char>, body: Seq<char>, rest: Seq<char>)
    requires
        blank_text(b),
        st.chars == b + seq!['-'] + body + seq!['\n'] + rest,
        body.len() > 0,
        is_digit(body[0]),
    ensures
        scan(st).0.kind == TokenType::Negative,
        scan(st).1.chars == body + seq!['\n'] + rest,
        parse_value_spec(st).0 == (match parse_value_spec(scan(st).1).0 {
            Ok(v) => Ok(negated(v)),
            Err(e) => Err(e),
        }),
        parse_value_spec(st).1 == parse_value_spec(scan(st).1).1,
{
    let tok = seq!['-'];
    let inner = body + seq!['\n'] + rest;
    assert(st.chars =~= b + tok + inner);
    lemma_scan_token(st, b, tok, inner);
}

proof fn lemma_read_integer(st: LexState, b: Seq<char>, i: int, rest: Seq<char>)
    requires
        blank_text(b),
        i128::MIN < i <= i128::MAX,
        st.chars == b + crate::text::integer_text(i) + seq!['\n'] + rest,
    ensures
        parse_value_spec(st).0 == Ok::<ValueView, ParseErrorView>(ValueView::Integer(i)),
        parse_value_spec(st).1.chars == seq!['\n'] + rest,
        opens_value(scan(st).0.kind),
        scan(st).0.kind != TokenType::LeftCurlyBrace,
        scan(st).0.kind != TokenType::LeftSquareBrace,
{
    if i >= 0 {
        lemma_read_natural(st, b, i as nat, rest);
    } else {
        let n = (-i) as nat;
        lemma_decimal(n);
        assert(st.chars =~= b + seq!['-'] + decimal(n) + seq!['\n'] + rest);
        lemma_read_negative(st, b, decimal(n), rest);
        let after = scan(st).1;
        assert(after.chars =~= Seq::<char>::empty() + decimal(n) + seq!['\n'] + rest);
        lemma_read_natural(after, Seq::empty(), n, rest);
    }
}

proof fn lemma_read_float(st: LexState, b: Seq<char>, neg: bool, d: Seq<char>, rest: Seq<char>)
    requires
        blank_text(b),
        decimal_text(d),
        st.chars == b + (if neg {
            seq!['-']
        } else {
            Seq::empty()
        }) + d + seq!['\n'] + rest,
    ensures
        parse_value_spec(st).0 == Ok::<ValueView, ParseErrorView>(ValueView::Float(neg, d)),
        parse_value_spec(st).1.chars == seq!['\n'] + rest,
        opens_value(scan(st).0.kind),
        scan(st).0.kind != TokenType::LeftCurlyBrace,
        scan(st).0.kind != TokenType::LeftSquareBrace,
{
    crate::lexer::lemma_digits_len(d);
    if !neg {
        assert(st.chars =~= b + d + seq!['\n'] + rest);
        lemma_read_decimal(st, b, d, rest);
    } else {
        assert(st.chars =~= b + seq!['-'] + d + seq!['\n'] + rest);
        lemma_read_negative(st, b, d, rest);
        let after = scan(st).1;
        assert(after.chars =~= Seq::<char>::empty() + d + seq!['\n'] + rest);
        lemma_read_decimal(after, Seq::empty(), d, rest);
    }
}

proof fn lemma_read_string(st: LexState, b: Seq<char>, x: Seq<char>, rest: Seq<char>)
    requires
        blank_text(b),
        no_backslash(x),
        st.chars == b + seq!['"'] + escape(x) + seq!['"', '\n'] + rest,
    ensures
        parse_value_spec(st).0 == Ok::<ValueView, ParseErrorView>(ValueView::String(x)),
        parse_value_spec(st).1.chars == seq!['\n'] + rest,
        scan(st).0.kind == TokenType::StringLiteral,
{
    let nl = seq!['\n'] + rest;
    let tok = seq!['"'] + escape(x) + seq!['"'];
    assert(st.chars =~= b + tok + nl);
    lemma_lex_string(x, nl);
    assert(tok + nl =~= seq!['"'] + escape(x) + seq!['"'] + nl);
    lemma_scan_token(st, b, tok, nl);
    lemma_unescape_escape(x);
    assert(tok.subrange(1, tok.len() - 1) =~= escape(x));
}

proof fn lemma_read_char(st: LexState, b: Seq<char>, c: char, rest: Seq<char>)
    requires
        blank_text(b),
        c != '\'',
        st.chars == b + seq!['\'', c, '\'', '\n'] + rest,
    ensures
        parse_value_spec(st).0 == Ok::<ValueView, ParseErrorView>(ValueView::Char(c)),
        parse_value_spec(st).1.chars == seq!['\n'] + rest,
        scan(st).0.kind == TokenType::CharLiteral,
{
    let nl = seq!['\n'] + rest;
    let tok = seq!['\'', c, '\''];
    assert(st.chars =~= b + tok + nl);
    lemma_lex_char(c, nl);
    lemma_scan_token(st, b, tok, nl);
}

proof fn lemma_read_enum(st: LexState, b: Seq<char>, x: Seq<char>, rest: Seq<char>)
    requires
        blank_text(b),
        identifier(x),
        st.chars == b + x + seq!['\n'] + rest,
    ensures
        parse_value_spec(st).0 == Ok::<ValueView, ParseErrorView>(ValueView::Enum(x)),
        parse_value_spec(st).1.chars == seq!['\n'] + rest,
        scan(st).0.kind == TokenType::Identifier,
{
    let nl = seq!['\n'] + rest;
    assert(st.chars =~= b + x + nl);
    lemma_lex_identifier(x, nl);
    lemma_scan_token(st, b, x, nl);
}

/// The text of a value other than an array or an object reads back as it.
proof fn lemma_read_scalar(
    v: ValueView,
    unit: Seq<char>,
    pad: Seq<char>,
    st: LexState,
    b: Seq<char>,
    rest: Seq<char>,
)
    requires
        printable(v),
        !(v is Array),
        !(v is Object),
        blank_text(b),
        st.chars == b + render(v, unit, pad) + rest,
    ensures
        parse_value_spec(st).0 == Ok::<ValueView, ParseErrorView>(v),
        parse_value_spec(st).1.chars == seq!['\n'] + rest,
        opens_value(scan(st).0.kind),
        scan(st).0.kind != TokenType::LeftCurlyBrace,
        scan(st).0.kind != TokenType::LeftSquareBrace,
{
    match v {
        ValueView::Null => {
            let tok = seq!['n', 'u', 'l', 'l'];
            assert(st.chars =~= b + tok + seq!['\n'] + rest);
            lemma_read_keyword(st, b, tok, rest);
        },
        ValueView::Bool(x) => {
            let tok = if x {
                seq!['t', 'r', 'u', 'e']
            } else {
                seq!['f', 'a', 'l', 's', 'e']
            };
            assert(st.chars =~= b + tok + seq!['\n'] + rest);
            lemma_read_keyword(st, b, tok, rest);
        },
        ValueView::Integer(i) => {
            assert(st.chars =~= b + crate::text::integer_text(i) + seq!['\n'] + rest);
            lemma_read_integer(st, b, i, rest);
        },
        ValueView::Float(neg, d) => {
            assert(st.chars =~= b + (if neg {
                seq!['-']
            } else {
                Seq::<char>::empty()
            }) + d + seq!['\n'] + rest);
            lemma_read_float(st, b, neg, d, rest);
        },
        ValueView::String(x) => {
            assert(st.chars =~= b + seq!['"'] + escape(x) + seq!['"', '\n'] + rest);
            lemma_read_string(st, b, x, rest);
        },
        ValueView::Char(c) => {
            assert(st.chars =~= b + seq!['\'', c, '\'', '\n'] + rest);
            lemma_read_char(st, b, c, rest);
        },
        ValueView::Enum(x) => {
            assert(st.chars =~= b + x + seq!['\n'] + rest);
            lemma_read_enum(st, b, x, rest);
        },
        _ => {},
    }
}

/// The elements of an array from the `k`th on, after the `[` and the
/// elements before.
proof fn lemma_read_items(
    items: Seq<ValueView>,
    k: int,
    unit: Seq<char>,
    pad: Seq<char>,
    st: LexState,
    rest: Seq<char>,
)
    requires
        forall|i: int| 0 <= i < items.len() ==> printable(#[trigger] items[i]),
        blank_text(unit),
        blank_text(pad),
        0 <= k <= items.len(),
        st.chars == seq!['\n'] + render_items(items.skip(k), unit, pad + unit) + pad + seq![
            ']',
            '\n',
        ] + rest,
    ensures
        array_items(st, items.take(k)).0 == Ok::<ValueView, ParseErrorView>(ValueView::Array(items)),
        array_items(st, items.take(k)).1.chars == seq!['\n'] + rest,
    decreases items, items.len() - k,
{
    let cpad = pad + unit;
    lemma_blank_concat(pad, unit);
    lemma_blank_concat(seq!['\n'], pad);
    lemma_blank_concat(seq!['\n'], cpad);
    let nl = seq!['\n'] + rest;
    if k == items.len() {
        assert(items.skip(k) =~= Seq::<ValueView>::empty());
        assert(st.chars =~= (seq!['\n'] + pad) + seq![']'] + nl);
        lemma_scan_token(st, seq!['\n'] + pad, seq![']'], nl);
        assert(items.take(k) =~= items);
    } else {
        let x = items[k];
        let later = items.skip(k + 1);
        assert(items.skip(k) =~= seq![x] + later);
        lemma_render_items_concat(seq![x], later, unit, cpad);
        assert(seq![x].subrange(0, 0) =~= Seq::<ValueView>::empty());
        assert(render_items(Seq::<ValueView>::empty(), unit, cpad) =~= Seq::<char>::empty());
        assert(seq![x][0] == x);
        assert(render_items(seq![x], unit, cpad) =~= cpad + render(x, unit, cpad));
        let tail = render_items(later, unit, cpad) + pad + seq![']', '\n'] + rest;
        assert(st.chars =~= (seq!['\n'] + cpad) + render(x, unit, cpad) + tail);
        assert(decreases_to!(items => items[k]));
        lemma_read_value(x, unit, cpad, st, seq!['\n'] + cpad, tail);
        crate::lexer::lemma_scan(st);
        let after = parse_value_spec(st).1;
        assert(after.chars =~= seq!['\n'] + render_items(items.skip(k + 1), unit, cpad) + pad + seq![
            ']',
            '\n',
        ] + rest);
        assert(items.take(k).push(x) =~= items.take(k + 1));
        lemma_read_items(items, k + 1, unit, pad, after, rest);
    }
}

/// The fields of an object from the `k`th on, after the `{` and the
/// fields before.
proof fn lemma_read_fields(
    fields: Seq<(Seq<char>, ValueView)>,
    k: int,
    unit: Seq<char>,
    pad: Seq<char>,
    st: LexState,
    rest: Seq<char>,
)
    requires
        forall|i: int|
            0 <= i < fields.len() ==> identifier(#[trigger] fields[i].0) && printable(fields[i].1),
        forall|i: int, j: int|
            0 <= i < j < fields.len() ==> (#[trigger] fields[i]).0 != (#[trigger] fields[j]).0,
        blank_text(unit),
        blank_text(pad),
        0 <= k <= fields.len(),
        st.chars == seq!['\n'] + render_fields(fields.skip(k), unit, pad + unit) + pad + seq![
            '}',
            '\n',
        ] + rest,
    ensures
        object_items(st, fields.take(k), None).0 == Ok::<ValueView, ParseErrorView>(
            ValueView::Object(fields),
        ),
        object_items(st, fields.take(k), None).1.chars == seq!['\n'] + rest,
    decreases fields, fields.len() - k,
{
    let cpad = pad + unit;
    lemma_blank_concat(pad, unit);
    lemma_blank_concat(seq!['\n'], pad);
    lemma_blank_concat(seq!['\n'], cpad);
    let nl = seq!['\n'] + rest;
    if k == fields.len() {
        assert(fields.skip(k) =~= Seq::<(Seq<char>, ValueView)>::empty());
        assert(st.chars =~= (seq!['\n'] + pad) + seq!['}'] + nl);
        lemma_scan_token(st, seq!['\n'] + pad, seq!['}'], nl);
        assert(fields.take(k) =~= fields);
    } else {
        let f = fields[k];
        let key = f.0;
        let val = f.1;
        let later = fields.skip(k + 1);
        assert(fields.skip(k) =~= seq![f] + later);
        lemma_render_fields_concat(seq![f], later, unit, cpad);
        assert(seq![f].subrange(0, 0) =~= Seq::<(Seq<char>, ValueView)>::empty());
        assert(render_fields(Seq::<(Seq<char>, ValueView)>::empty(), unit, cpad) =~= Seq::<char>::empty());
        assert(seq![f][0] == f);
        assert(render_fields(seq![f], unit, cpad) =~= cpad + key + seq![':', ' '] + render(val, unit, cpad));
        let tail = render_fields(later, unit, cpad) + pad + seq!['}', '\n'] + rest;
        let after_key = seq![':', ' '] + render(val, unit, cpad) + tail;
        assert(st.chars =~= (seq!['\n'] + cpad) + key + after_key);
        assert(identifier(key));
        lemma_lex_identifier(key, after_key);
        lemma_scan_token(st, seq!['\n'] + cpad, key, after_key);
        let st1 = scan(st).1;
        let after_colon = seq![' '] + render(val, unit, cpad) + tail;
        assert(st1.chars =~= Seq::<char>::empty() + seq![':'] + after_colon);
        lemma_scan_token(st1, Seq::empty(), seq![':'], after_colon);
        let st2 = scan(st1).1;
        assert(blank_text(seq![' ']));
        assert(st2.chars =~= seq![' '] + render(val, unit, cpad) + tail);
        assert(decreases_to!(fields => fields[k]));
        assert(decreases_to!(fields[k] => fields[k].1));
        lemma_read_value(val, unit, cpad, st2, seq![' '], tail);
        let after = parse_value_spec(st2).1;
        assert forall|i: int| 0 <= i < fields.take(k).len() implies (#[trigger] fields.take(k)[i]).0
            != key by {
            assert(fields.take(k)[i] == fields[i]);
        }
        lemma_field_index_absent(fields.take(k), key);
        assert(set_field(fields.take(k), key, val) =~= fields.take(k + 1));
        assert(after.chars =~= seq!['\n'] + render_fields(fields.skip(k + 1), unit, cpad) + pad + seq![
            '}',
            '\n',
        ] + rest);
        let acc = fields.take(k);
        assert(scan(st).0.kind == TokenType::Identifier);
        assert(scan(st).0.source == key);
        assert(object_items(st, acc, None) == object_items(st1, acc, Some(key)));
        assert(scan(st1).0.kind == TokenType::Colon);
        assert(parse_value_spec(st2).0 == Ok::<ValueView, ParseErrorView>(val));
        assert(after.chars.len() < st1.chars.len());
        assert(object_items(st1, acc, Some(key)) == object_items(after, set_field(acc, key, val), None));
        lemma_read_fields(fields, k + 1, unit, pad, after, rest);
    }
}

/// Text round trip: the text that the printer writes for an object or an
/// array reads back as the same value, for every value that `printable`
/// accepts and any whitespace indentation.
pub proof fn lemma_text_round_trip(v: ValueView, unit: Seq<char>, st: LexState)
    requires
        printable(v),
        v is Object || v is Array,
        blank_text(unit),
        st.chars == render(v, unit, Seq::empty()),
    ensures
        parse_document(st).0 == Ok::<ValueView, ParseErrorView>(v),
{
    assert(blank_text(Seq::<char>::empty()));
    assert(st.chars =~= Seq::<char>::empty() + render(v, unit, Seq::empty()) + Seq::<char>::empty());
    lemma_read_value(v, unit, Seq::empty(), st, Seq::empty(), Seq::empty());
    crate::lexer::lemma_scan(st);
}

/// A prefix of valid UTF-8 that is valid itself ends at a character
/// boundary.
proof fn lemma_valid_prefix_boundary(w: Seq<u8>, j: int)
    requires
        valid_utf8(w),
        0 <= j <= w.len(),
        valid_utf8(w.take(j)),
    ensures
        is_char_boundary(w, j),
    decreases w.len(),
{
    if j > 0 {
        let p = w.take(j);
        assert(p[0] == w[0]);
        assert(valid_first_scalar(p));
        let l = length_of_first_scalar(p);
        assert(l == length_of_first_scalar(w));
        assert(1 <= l <= j);
        assert(valid_first_scalar(w));
        let pw = pop_first_scalar(w);
        assert(pop_first_scalar(p) =~= pw.take(j - l));
        lemma_valid_prefix_boundary(pw, j - l);
    }
}

/// One step of chunked reading: the longest valid prefix of what is
/// buffered ends at a character boundary of the whole valid input.
proof fn lemma_chunk_step(buf: Seq<u8>, r: Seq<u8>)
    requires
        valid_utf8(buf + r),
    ensures
        utf8_prefix_len(buf) <= buf.len(),
        valid_utf8(buf.skip(utf8_prefix_len(buf) as int) + r),
        decode_utf8(buf + r) == decode_utf8(buf.take(utf8_prefix_len(buf) as int)) + decode_utf8(
            buf.skip(utf8_prefix_len(buf) as int) + r,
        ),
{
    let w = buf + r;
    let k = utf8_prefix_len(buf) as int;
    crate::lexer::lemma_utf8_prefix(buf);
    assert(w.take(k) =~= buf.take(k));
    lemma_valid_prefix_boundary(w, k);
    valid_utf8_split(w, k);
    decode_utf8_split(w, k);
    assert(w.subrange(0, k) =~= buf.take(k));
    assert(w.subrange(k, w.len() as int) =~= buf.skip(k) + r);
}

proof fn lemma_chunked_decode_steps(left: Seq<u8>, rest: Seq<u8>, cap: nat)
    requires
        cap > 0,
        valid_utf8(left + rest),
        rest.len() == 0 ==> left.len() == 0,
    ensures
        chunked_decode(left, rest, cap) == decode_utf8(left + rest),
    decreases rest.len(),
{
    if rest.len() == 0 {
        assert(left + rest =~= Seq::<u8>::empty());
    } else {
        let n = if cap < rest.len() { cap } else { rest.len() };
        let buf = left + rest.take(n as int);
        let r = rest.skip(n as int);
        assert(buf + r =~= left + rest);
        lemma_chunk_step(buf, r);
        let k = utf8_prefix_len(buf);
        if r.len() == 0 {
            assert(buf =~= left + rest);
            assert(buf.skip(k as int).len() == 0);
        }
        lemma_chunked_decode_steps(buf.skip(k as int), r, cap);
    }
}

/// Reading valid UTF-8 in chunks of any size gives the characters that the
/// whole input encodes: no character is split at a chunk boundary.
pub proof fn lemma_chunked_decode(data: Seq<u8>, cap: nat)
    requires
        cap > 0,
        valid_utf8(data),
    ensures
        chunked_decode(Seq::empty(), data, cap) == decode_utf8(data),
{
    assert(Seq::<u8>::empty() + data =~= data);
    lemma_chunked_decode_steps(Seq::empty(), data, cap);
}

/// The lexer reads the characters of a string.
pub proof fn lemma_initial_state_text(s: &str)
    ensures
        initial_state(s.spec_bytes()).chars == s@,
{
    encode_utf8_valid_utf8(s@);
    encode_utf8_decode_utf8(s@);
    lemma_chunked_decode(encode_utf8(s@), crate::lexer::TOKENIZER_BUFFER_SIZE as nat);
}

/// Text round trip through strings: a string that holds what the printer
/// writes for a printable object or array reads back as the same value.
pub proof fn lemma_text_round_trip_str(v: ValueView, unit: Seq<char>, text: &str)
    requires
        printable(v),
        v is Object || v is Array,
        blank_text(unit),
        text@ == render(v, unit, Seq::empty()),
    ensures
        parse_document(initial_state(text.spec_bytes())).0 == Ok::<ValueView, ParseErrorView>(v),
{
    lemma_initial_state_text(text);
    lemma_text_round_trip(v, unit, initial_state(text.spec_bytes()));
}

proof fn lemma_escape_concat(a: Seq<char>, b: Seq<char>)
    ensures
        escape(a + b) == escape(a) + escape(b),
    decreases b.len(),
{
    if b.len() == 0 {
        assert(a + b =~= a);
        assert(escape(a) + escape(b) =~= escape(a));
    } else {
        assert((a + b).drop_last() =~= a + b.drop_last());
        lemma_escape_concat(a, b.drop_last());
        assert(escape(a + b) =~= escape(a) + escape(b));
    }
}

proof fn lemma_escape_first(s: Seq<char>)
    requires
        s.len() > 0,
    ensures
        escape(s) == escape_char(s[0]) + escape(s.skip(1)),
{
    assert(s =~= seq![s[0]] + s.skip(1));
    lemma_escape_concat(seq![s[0]], s.skip(1));
    let one = seq![s[0]];
    assert(one.drop_last() =~= Seq::<char>::empty());
    assert(escape(one.drop_last()) =~= Seq::<char>::empty());
    assert(one.last() == s[0]);
    assert(escape(one) =~= escape_char(s[0]));
}

pub open spec fn no_backslash(s: Seq<char>) -> bool {
    forall|i: int| 0 <= i < s.len() ==> s[i] != '\\'
}

proof fn lemma_string_len_escape(s: Seq<char>, rest: Seq<char>)
    requires
        no_backslash(s),
    ensures
        string_len(escape(s) + seq!['"'] + rest) == Some(escape(s).len()),
    decreases s.len(),
{
    if s.len() == 0 {
        assert(escape(s) + seq!['"'] + rest =~= seq!['"'] + rest);
    } else {
        lemma_escape_first(s);
        let x = escape(s.skip(1)) + seq!['"'] + rest;
        assert(no_backslash(s.skip(1))) by {
            assert forall|i: int| 0 <= i < s.skip(1).len() implies s.skip(1)[i] != '\\' by {
                assert(s.skip(1)[i] == s[i + 1]);
            }
        }
        lemma_string_len_escape(s.skip(1), rest);
        let e = escape_char(s[0]);
        let t = escape(s) + seq!['"'] + rest;
        assert(t =~= e + x);
        if e.len() == 2 {
            assert(t.skip(2) =~= x);
        } else {
            assert(s[0] != '\\');
            assert(t.skip(1) =~= x);
        }
    }
}

proof fn lemma_unescape_escape(s: Seq<char>)
    requires
        no_backslash(s),
    ensures
        unescape(escape(s)) == s,
    decreases s.len(),
{
    if s.len() == 0 {
        assert(escape(s) =~= Seq::<char>::empty());
    } else {
        lemma_escape_first(s);
        assert(no_backslash(s.skip(1))) by {
            assert forall|i: int| 0 <= i < s.skip(1).len() implies s.skip(1)[i] != '\\' by {
                assert(s.skip(1)[i] == s[i + 1]);
            }
        }
        lemma_unescape_escape(s.skip(1));
        let e = escape_char(s[0]);
        let t = escape(s);
        if e.len() == 2 {
            assert(t.skip(2) =~= escape(s.skip(1)));
        } else {
            assert(s[0] != '\\');
            assert(t.skip(1) =~= escape(s.skip(1)));
        }
        assert(unescape(t) =~= s);
    }
}

/// A string literal of text without backslashes.
proof fn lemma_lex_string(s: Seq<char>, rest: Seq<char>)
    requires
        no_backslash(s),
    ensures
        lex(seq!['"'] + escape(s) + seq!['"'] + rest) == (TokenType::StringLiteral, escape(s).len() + 2),
{
    let t = seq!['"'] + escape(s) + seq!['"'] + rest;
    assert(t.skip(1) =~= escape(s) + seq!['"'] + rest);
    lemma_string_len_escape(s, rest);
}

proof fn lemma_field_index_absent(fields: Seq<(Seq<char>, ValueView)>, name: Seq<char>)
    requires
        forall|i: int| 0 <= i < fields.len() ==> (#[trigger] fields[i]).0 != name,
    ensures
        field_index(fields, name) is None,
    decreases fields.len(),
{
    if fields.len() > 0 {
        assert(fields.last() == fields[fields.len() - 1]);
        lemma_field_index_absent(fields.drop_last(), name);
    }
}

proof fn lemma_render_items_concat(a: Seq<ValueView>, b: Seq<ValueView>, unit: Seq<char>, pad: Seq<char>)
    ensures
        render_items(a + b, unit, pad) == render_items(a, unit, pad) + render_items(b, unit, pad),
    decreases b.len(),
{
    if b.len() == 0 {
        assert(a + b =~= a);
        assert(render_items(b, unit, pad) =~= Seq::<char>::empty());
        assert(render_items(a, unit, pad) + render_items(b, unit, pad) =~= render_items(a, unit, pad));
    } else {
        let ab = a + b;
        assert(ab.subrange(0, ab.len() - 1) =~= a + b.subrange(0, b.len() - 1));
        assert(ab[ab.len() - 1] == b[b.len() - 1]);
        lemma_render_items_concat(a, b.subrange(0, b.len() - 1), unit, pad);
        assert(render_items(a + b, unit, pad) =~= render_items(a, unit, pad) + render_items(b, unit, pad));
    }
}

proof fn lemma_render_fields_concat(
    a: Seq<(Seq<char>, ValueView)>,
    b: Seq<(Seq<char>, ValueView)>,
    unit: Seq<char>,
    pad: Seq<char>,
)
    ensures
        render_fields(a + b, unit, pad) == render_fields(a, unit, pad) + render_fields(b, unit, pad),
    decreases b.len(),
{
    if b.len() == 0 {
        assert(a + b =~= a);
        assert(render_fields(b, unit, pad) =~= Seq::<char>::empty());
        assert(render_fields(a, unit, pad) + render_fields(b, unit, pad) =~= render_fields(a, unit, pad));
    } else {
        let ab = a + b;
        assert(ab.subrange(0, ab.len() - 1) =~= a + b.subrange(0, b.len() - 1));
        assert(ab[ab.len() - 1] == b[b.len() - 1]);
        lemma_render_fields_concat(a, b.subrange(0, b.len() - 1), unit, pad);
        assert(render_fields(a + b, unit, pad) =~= render_fields(a, unit, pad) + render_fields(b, unit, pad));
    }
}

} // verus!
