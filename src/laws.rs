use crate::error::{ParseErrorView, ParseStep};
use crate::lexer::{is_blank, lex, scan, skip_trivia, step, string_len, char_len, LexState};
use crate::parser::{field_index, parse_document, parse_value_spec, set_field};
use crate::token::TokenType;
use crate::value::ValueView;
use vstd::prelude::*;

verus! {

proof fn lemma_skip_blanks(st: LexState)
    requires
        forall|i: int| 0 <= i < st.chars.len() ==> is_blank(#[trigger] st.chars[i]),
    ensures
        skip_trivia(st, false).chars.len() == 0,
    decreases st.chars.len(),
{
    if st.chars.len() > 0 {
        let next = step(st);
        assert forall|i: int| 0 <= i < next.chars.len() implies is_blank(#[trigger] next.chars[i]) by {
            assert(next.chars[i] == st.chars[i + 1]);
        }
        lemma_skip_blanks(next);
    }
}

/// A document that holds nothing but whitespace (the empty one too) fails
/// with an unexpected end of input at the start.
pub proof fn lemma_blank_document(st: LexState)
    requires
        forall|i: int| 0 <= i < st.chars.len() ==> is_blank(#[trigger] st.chars[i]),
    ensures
        parse_document(st).0 == Err::<ValueView, ParseErrorView>(ParseErrorView::UnexpectedEOF(ParseStep::Start)),
{
    lemma_skip_blanks(st);
}

/// A document whose first token is neither `{` nor `[` (nor a lexical
/// error, nor the end) fails with an unexpected token at the start.
pub proof fn lemma_wrong_start(st: LexState)
    requires
        scan(st).0.kind != TokenType::LeftCurlyBrace,
        scan(st).0.kind != TokenType::LeftSquareBrace,
        scan(st).0.kind != TokenType::Error,
        scan(st).0.kind != TokenType::EOF,
    ensures
        parse_document(st).0 matches Err(ParseErrorView::UnexpectedToken { step, found, .. })
            && step == ParseStep::Start && found == scan(st).0,
{
}

/// A string literal without its closing quote is a lexical error token.
pub proof fn lemma_unterminated_string(st: LexState)
    requires
        skip_trivia(st, false).chars.len() > 0,
        skip_trivia(st, false).chars[0] == '"',
        string_len(skip_trivia(st, false).chars.skip(1)) is None,
    ensures
        scan(st).0.kind == TokenType::Error,
        scan(st).0.source == "Unterminated string literal"@,
{
}

/// A char literal without its closing quote is a lexical error token.
pub proof fn lemma_unterminated_char(st: LexState)
    requires
        skip_trivia(st, false).chars.len() > 0,
        skip_trivia(st, false).chars[0] == '\'',
        char_len(skip_trivia(st, false).chars.skip(1)) is None,
    ensures
        scan(st).0.kind == TokenType::Error,
        scan(st).0.source == "Unterminated char literal"@,
{
}

/// A lexical error token where a value or a document is expected is
/// surfaced as an error token of the parse.
pub proof fn lemma_error_token_surfaces(st: LexState)
    requires
        scan(st).0.kind == TokenType::Error,
    ensures
        parse_value_spec(st).0 == Err::<ValueView, ParseErrorView>(
            ParseErrorView::ErrorToken(ParseStep::Value, scan(st).0),
        ),
        parse_document(st).0 == Err::<ValueView, ParseErrorView>(
            ParseErrorView::ErrorToken(ParseStep::Start, scan(st).0),
        ),
{
    crate::lexer::lemma_scan(st);
    if scan(st).1.chars.len() >= st.chars.len() {
        let ws = skip_trivia(st, false);
        crate::lexer::lemma_lex_len(ws.chars);
        crate::lexer::lemma_advance_by_chars(ws, lex(ws.chars).1);
    }
}

/// Of two fields with the same name, the later one is kept.
pub proof fn lemma_last_write_wins(
    fields: Seq<(Seq<char>, ValueView)>,
    name: Seq<char>,
    first: ValueView,
    second: ValueView,
)
    ensures
        ({
            let f = set_field(set_field(fields, name, first), name, second);
            field_index(f, name) matches Some(i) && f[i as int] == (name, second)
        }),
{
    lemma_set_field_found(fields, name, first);
    lemma_set_field_found(set_field(fields, name, first), name, second);
}

proof fn lemma_field_index_found(fields: Seq<(Seq<char>, ValueView)>, name: Seq<char>)
    ensures
        field_index(fields, name) matches Some(i) ==> i < fields.len() && fields[i as int].0 == name,
    decreases fields.len(),
{
    if fields.len() > 0 && fields.last().0 != name {
        lemma_field_index_found(fields.drop_last(), name);
    }
}

proof fn lemma_field_index_unchanged(
    fields: Seq<(Seq<char>, ValueView)>,
    name: Seq<char>,
    i: int,
    v: ValueView,
)
    requires
        0 <= i,
        field_index(fields, name) == Some(i as nat),
    ensures
        field_index(fields.update(i, (name, v)), name) == Some(i as nat),
    decreases fields.len(),
{
    lemma_field_index_found(fields, name);
    let u = fields.update(i, (name, v));
    assert(fields.len() > 0);
    if fields.last().0 != name {
        assert(field_index(fields.drop_last(), name) == Some(i as nat));
        lemma_field_index_found(fields.drop_last(), name);
        lemma_field_index_unchanged(fields.drop_last(), name, i, v);
        assert(u.drop_last() =~= fields.drop_last().update(i, (name, v)));
        assert(u.last() == fields.last());
    } else {
        assert(i == fields.len() - 1);
        assert(u.last() == (name, v));
    }
}

proof fn lemma_field_index_push(fields: Seq<(Seq<char>, ValueView)>, name: Seq<char>, v: ValueView)
    ensures
        field_index(fields.push((name, v)), name) == Some(fields.len()),
{
}

/// After a field is set, looking its name up finds the new value.
proof fn lemma_set_field_found(fields: Seq<(Seq<char>, ValueView)>, name: Seq<char>, v: ValueView)
    ensures
        field_index(set_field(fields, name, v), name) matches Some(i) && set_field(fields, name, v)[i as int]
            == (name, v),
{
    match field_index(fields, name) {
        Some(i) => {
            lemma_field_index_found(fields, name);
            lemma_field_index_unchanged(fields, name, i as int, v);
        },
        None => {
            lemma_field_index_push(fields, name, v);
        },
    }
}

} // verus!
