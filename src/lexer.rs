use crate::text::{is_digit, string_from_chars};
use crate::token::{Token, TokenType, TokenView};
use std::collections::VecDeque;
use vstd::prelude::*;
use vstd::utf8::{decode_utf8, valid_utf8};

verus! {

/// How many bytes the lexer takes from its input at a time.
pub const TOKENIZER_BUFFER_SIZE: usize = 1024;

/// The length of the longest prefix of `b` that is valid UTF-8.
pub open spec fn utf8_prefix_len(b: Seq<u8>) -> nat
    decreases b.len(),
{
    if valid_utf8(b) || b.len() == 0 {
        b.len()
    } else {
        utf8_prefix_len(b.drop_last())
    }
}

pub(crate) proof fn lemma_utf8_prefix(b: Seq<u8>)
    ensures
        utf8_prefix_len(b) <= b.len(),
        valid_utf8(b.take(utf8_prefix_len(b) as int)),
    decreases b.len(),
{
    if valid_utf8(b) || b.len() == 0 {
        assert(b.take(b.len() as int) =~= b);
        if b.len() == 0 {
            assert(valid_utf8(b));
        }
    } else {
        let d = b.drop_last();
        lemma_utf8_prefix(d);
        assert(d.take(utf8_prefix_len(d) as int) =~= b.take(utf8_prefix_len(d) as int));
    }
}

/// The characters that chunked reading yields: the input is taken `cap`
/// bytes at a time; each chunk is appended to the bytes left undecoded so
/// far, the longest valid prefix of the result is decoded and the rest is
/// kept for the next chunk. Bytes still undecoded at the end are dropped.
pub open spec fn chunked_decode(left: Seq<u8>, rest: Seq<u8>, cap: nat) -> Seq<char>
    decreases rest.len(),
{
    if rest.len() == 0 || cap == 0 {
        Seq::empty()
    } else {
        let n = if cap < rest.len() { cap } else { rest.len() };
        let buf = left + rest.take(n as int);
        let k = utf8_prefix_len(buf);
        decode_utf8(buf.take(k as int)) + chunked_decode(buf.skip(k as int), rest.skip(n as int), cap)
    }
}

/// What the lexer has left to read, and where it stands (line from 1,
/// column from 0).
pub struct LexState {
    pub chars: Seq<char>,
    pub line: u32,
    pub col: u32,
}

pub open spec fn sat_inc(x: u32) -> u32 {
    if x < u32::MAX {
        (x + 1) as u32
    } else {
        x
    }
}

/// Reading one character: a newline moves to the next line and resets the
/// column; any other character moves one column on. Both saturate.
pub open spec fn step(st: LexState) -> LexState {
    LexState {
        chars: st.chars.skip(1),
        line: if st.chars[0] == '\n' { sat_inc(st.line) } else { st.line },
        col: if st.chars[0] == '\n' { 0 } else { sat_inc(st.col) },
    }
}

/// Reading `n` characters.
pub open spec fn advance_by(st: LexState, n: nat) -> LexState
    decreases n,
{
    if n == 0 {
        st
    } else {
        step(advance_by(st, (n - 1) as nat))
    }
}

pub proof fn lemma_advance_by_chars(st: LexState, n: nat)
    requires
        n <= st.chars.len(),
    ensures
        advance_by(st, n).chars =~= st.chars.skip(n as int),
    decreases n,
{
    if n > 0 {
        lemma_advance_by_chars(st, (n - 1) as nat);
    }
}

pub open spec fn is_blank(c: char) -> bool {
    c == ' ' || c == '\t' || c == '\r' || c == '\n'
}

pub open spec fn is_ident_char(c: char) -> bool {
    ('a' <= c <= 'z') || ('A' <= c <= 'Z') || c == '_'
}

/// Skips whitespace and `//` comments; a comment ends before its newline.
pub open spec fn skip_trivia(st: LexState, in_comment: bool) -> LexState
    decreases st.chars.len(), (if in_comment { 1int } else { 0int }),
{
    if st.chars.len() == 0 {
        st
    } else if in_comment {
        if st.chars[0] == '\n' {
            skip_trivia(st, false)
        } else {
            skip_trivia(step(st), true)
        }
    } else if is_blank(st.chars[0]) {
        skip_trivia(step(st), false)
    } else if st.chars[0] == '/' && st.chars.len() >= 2 && st.chars[1] == '/' {
        skip_trivia(step(step(st)), true)
    } else {
        st
    }
}

/// The number of leading ASCII digits.
pub open spec fn digits_len(t: Seq<char>) -> nat
    decreases t.len(),
{
    if t.len() > 0 && is_digit(t[0]) {
        1 + digits_len(t.skip(1))
    } else {
        0
    }
}

/// The number of leading identifier characters.
pub open spec fn ident_len(t: Seq<char>) -> nat
    decreases t.len(),
{
    if t.len() > 0 && is_ident_char(t[0]) {
        1 + ident_len(t.skip(1))
    } else {
        0
    }
}

pub open spec fn opt_add(o: Option<nat>, k: nat) -> Option<nat> {
    match o {
        Some(i) => Some(i + k),
        None => None,
    }
}

/// In the text after an opening `"`, where the closing quote is; a
/// backslash takes the next character with it.
pub open spec fn string_len(t: Seq<char>) -> Option<nat>
    decreases t.len(),
{
    if t.len() == 0 {
        None
    } else if t[0] == '"' {
        Some(0)
    } else if t[0] == '\\' && t.len() >= 2 {
        opt_add(string_len(t.skip(2)), 2)
    } else {
        opt_add(string_len(t.skip(1)), 1)
    }
}

/// In the text after an opening `'`, where the closing quote is.
pub open spec fn char_len(t: Seq<char>) -> Option<nat>
    decreases t.len(),
{
    if t.len() == 0 {
        None
    } else if t[0] == '\'' {
        Some(0)
    } else {
        opt_add(char_len(t.skip(1)), 1)
    }
}

pub open spec fn punct_kind(c: char) -> Option<TokenType> {
    if c == '(' {
        Some(TokenType::LeftParen)
    } else if c == ')' {
        Some(TokenType::RightParen)
    } else if c == '{' {
        Some(TokenType::LeftCurlyBrace)
    } else if c == '}' {
        Some(TokenType::RightCurlyBrace)
    } else if c == '[' {
        Some(TokenType::LeftSquareBrace)
    } else if c == ']' {
        Some(TokenType::RightSquareBrace)
    } else if c == ',' {
        Some(TokenType::Comma)
    } else if c == '.' {
        Some(TokenType::Dot)
    } else if c == ':' {
        Some(TokenType::Colon)
    } else if c == '-' {
        Some(TokenType::Negative)
    } else {
        None
    }
}

pub open spec fn keyword_kind(s: Seq<char>) -> TokenType {
    if s == seq!['t', 'r', 'u', 'e'] {
        TokenType::True
    } else if s == seq!['f', 'a', 'l', 's', 'e'] {
        TokenType::False
    } else if s == seq!['n', 'u', 'l', 'l'] {
        TokenType::Null
    } else {
        TokenType::Identifier
    }
}

/// The kind of the token at the start of a non-empty text, and how many
/// characters it takes.
pub open spec fn lex(t: Seq<char>) -> (TokenType, nat) {
    let c = t[0];
    if punct_kind(c) is Some {
        (punct_kind(c)->0, 1)
    } else if c == '"' {
        match string_len(t.skip(1)) {
            Some(i) => (TokenType::StringLiteral, i + 2),
            None => (TokenType::Error, t.len()),
        }
    } else if c == '\'' {
        match char_len(t.skip(1)) {
            Some(i) => (TokenType::CharLiteral, i + 2),
            None => (TokenType::Error, t.len()),
        }
    } else if is_digit(c) {
        let n = digits_len(t);
        if n + 1 < t.len() && t[n as int] == '.' && is_digit(t[n + 1int]) {
            (TokenType::FloatLiteral, n + 1 + digits_len(t.skip(n + 1int)))
        } else {
            (TokenType::IntegerLiteral, n)
        }
    } else if is_ident_char(c) {
        (keyword_kind(t.take(ident_len(t) as int)), ident_len(t))
    } else {
        (TokenType::Error, 1)
    }
}

/// The message of the `Error` token that a non-empty text starts with.
pub open spec fn error_message(t: Seq<char>) -> Seq<char> {
    if t[0] == '"' {
        "Unterminated string literal"@
    } else if t[0] == '\'' {
        "Unterminated char literal"@
    } else {
        "Unexpected character"@
    }
}

/// The token that starts a state with text left, after trivia.
pub open spec fn token_at(ws: LexState) -> TokenView {
    let t = ws.chars;
    TokenView {
        kind: lex(t).0,
        line: ws.line,
        col: ws.col,
        source: if lex(t).0 == TokenType::Error {
            error_message(t)
        } else {
            t.take(lex(t).1 as int)
        },
    }
}

/// The next token, and the state after it.
pub open spec fn scan(st: LexState) -> (TokenView, LexState) {
    let ws = skip_trivia(st, false);
    if ws.chars.len() == 0 {
        (TokenView { kind: TokenType::EOF, line: ws.line, col: ws.col, source: Seq::empty() }, ws)
    } else {
        (token_at(ws), advance_by(ws, lex(ws.chars).1))
    }
}

proof fn lemma_skip_trivia_len(st: LexState, in_comment: bool)
    ensures
        skip_trivia(st, in_comment).chars.len() <= st.chars.len(),
    decreases st.chars.len(), (if in_comment { 1int } else { 0int }),
{
    if st.chars.len() == 0 {
    } else if in_comment {
        if st.chars[0] == '\n' {
            lemma_skip_trivia_len(st, false);
        } else {
            lemma_skip_trivia_len(step(st), true);
        }
    } else if is_blank(st.chars[0]) {
        lemma_skip_trivia_len(step(st), false);
    } else if st.chars[0] == '/' && st.chars.len() >= 2 && st.chars[1] == '/' {
        lemma_skip_trivia_len(step(step(st)), true);
    }
}

pub(crate) proof fn lemma_digits_len(t: Seq<char>)
    ensures
        digits_len(t) <= t.len(),
        forall|i: int| 0 <= i < digits_len(t) ==> is_digit(#[trigger] t[i]),
        digits_len(t) < t.len() ==> !is_digit(t[digits_len(t) as int]),
    decreases t.len(),
{
    if t.len() > 0 && is_digit(t[0]) {
        lemma_digits_len(t.skip(1));
        assert forall|i: int| 0 <= i < digits_len(t) implies is_digit(#[trigger] t[i]) by {
            if i > 0 {
                assert(t[i] == t.skip(1)[i - 1]);
            }
        }
    }
}

proof fn lemma_ident_len(t: Seq<char>)
    ensures
        ident_len(t) <= t.len(),
        ident_len(t) < t.len() ==> !is_ident_char(t[ident_len(t) as int]),
    decreases t.len(),
{
    if t.len() > 0 && is_ident_char(t[0]) {
        lemma_ident_len(t.skip(1));
    }
}

proof fn lemma_string_len(t: Seq<char>)
    ensures
        string_len(t) matches Some(i) ==> i < t.len(),
    decreases t.len(),
{
    if t.len() > 0 && t[0] != '"' {
        if t[0] == '\\' && t.len() >= 2 {
            lemma_string_len(t.skip(2));
        } else {
            lemma_string_len(t.skip(1));
        }
    }
}

proof fn lemma_char_len(t: Seq<char>)
    ensures
        char_len(t) matches Some(i) ==> i < t.len(),
    decreases t.len(),
{
    if t.len() > 0 && t[0] != '\'' {
        lemma_char_len(t.skip(1));
    }
}

/// A token's length is at least one and at most what is left.
pub proof fn lemma_lex_len(t: Seq<char>)
    requires
        t.len() > 0,
    ensures
        1 <= lex(t).1 <= t.len(),
        lex(t).0 != TokenType::EOF,
{
    lemma_digits_len(t);
    lemma_ident_len(t);
    lemma_string_len(t.skip(1));
    lemma_char_len(t.skip(1));
    let n = digits_len(t);
    if is_digit(t[0]) && n + 1 < t.len() {
        lemma_digits_len(t.skip(n + 1int));
    }
}

/// Every token but `EOF` reads at least one character.
pub proof fn lemma_scan(st: LexState)
    ensures
        scan(st).0.kind != TokenType::EOF ==> scan(st).1.chars.len() < st.chars.len(),
        scan(st).1.chars.len() <= st.chars.len(),
{
    let ws = skip_trivia(st, false);
    lemma_skip_trivia_len(st, false);
    if ws.chars.len() > 0 {
        lemma_lex_len(ws.chars);
        lemma_advance_by_chars(ws, lex(ws.chars).1);
    }
}

/// Relies on `std::str::from_utf8` and `Utf8Error::valid_up_to`: the length
/// of the longest prefix that is valid UTF-8.
#[verifier::external_body]
fn utf8_valid_up_to(b: &Vec<u8>) -> (n: usize)
    ensures
        n == utf8_prefix_len(b@),
{
    match std::str::from_utf8(b.as_slice()) {
        Ok(_) => b.len(),
        Err(e) => e.valid_up_to(),
    }
}

/// Relies on `std::str::from_utf8` and `str::chars`: the characters that
/// valid UTF-8 bytes encode.
#[verifier::external_body]
fn decode_utf8_chars(b: &Vec<u8>) -> (r: Vec<char>)
    requires
        valid_utf8(b@),
    ensures
        r@ == decode_utf8(b@),
{
    match std::str::from_utf8(b.as_slice()) {
        Ok(s) => s.chars().collect(),
        Err(_) => Vec::new(),
    }
}

/// The streaming lexer: it reads its input in chunks of `capacity` bytes and
/// turns the characters into tokens.
pub struct SonLexer {
    data: Vec<u8>,
    pos: usize,
    capacity: usize,
    line: u32,
    col: u32,
    current_chunk: VecDeque<char>,
    leftovers: Vec<u8>,
    current_token_source: Vec<char>,
    current_token_line: u32,
    current_token_col: u32,
}

impl SonLexer {
    pub closed spec fn wf(self) -> bool {
        self.pos <= self.data.len()
    }

    /// The characters not read yet, decoded or not.
    pub closed spec fn pending(self) -> Seq<char> {
        self.current_chunk@ + chunked_decode(self.leftovers@, self.data@.skip(self.pos as int), self.capacity as nat)
    }

    pub closed spec fn state(self) -> LexState {
        LexState { chars: self.pending(), line: self.line, col: self.col }
    }

    /// A lexer over `data`, taken `TOKENIZER_BUFFER_SIZE` bytes at a time.
    pub fn new(data: Vec<u8>) -> (r: SonLexer)
        ensures
            r.wf(),
            r.state() == (LexState {
                chars: chunked_decode(Seq::empty(), data@, TOKENIZER_BUFFER_SIZE as nat),
                line: 1,
                col: 0,
            }),
    {
        SonLexer::from_buf_reader(data, TOKENIZER_BUFFER_SIZE)
    }

    /// A lexer over `data`, taken `capacity` bytes at a time; with no
    /// capacity nothing is read.
    pub fn from_buf_reader(data: Vec<u8>, capacity: usize) -> (r: SonLexer)
        ensures
            r.wf(),
            r.state() == (LexState {
                chars: chunked_decode(Seq::empty(), data@, capacity as nat),
                line: 1,
                col: 0,
            }),
    {
        let r = SonLexer {
            data,
            pos: 0,
            capacity,
            line: 1,
            col: 0,
            current_chunk: VecDeque::new(),
            leftovers: Vec::new(),
            current_token_source: Vec::new(),
            current_token_line: 1,
            current_token_col: 0,
        };
        assert(r.data@.skip(0) =~= data@);
        assert(r.pending() =~= chunked_decode(Seq::empty(), data@, capacity as nat));
        r
    }

    /// Decodes the next chunk of input; what is pending stays the same.
    fn next_chunk(&mut self)
        requires
            old(self).wf(),
            old(self).pos < old(self).data.len(),
            old(self).capacity > 0,
        ensures
            final(self).wf(),
            final(self).pending() == old(self).pending(),
            final(self).line == old(self).line,
            final(self).col == old(self).col,
            final(self).current_token_source == old(self).current_token_source,
            final(self).current_token_line == old(self).current_token_line,
            final(self).current_token_col == old(self).current_token_col,
            final(self).pos > old(self).pos,
            final(self).data == old(self).data,
            final(self).capacity == old(self).capacity,
    {
        let ghost rest = self.data@.skip(self.pos as int);
        let ghost left = self.leftovers@;
        let remaining = self.data.len() - self.pos;
        let n = if self.capacity < remaining { self.capacity } else { remaining };
        let mut i: usize = 0;
        while i < n
            invariant
                self.wf(),
                n <= self.data.len() - self.pos,
                i <= n,
                rest == self.data@.skip(self.pos as int),
                self.leftovers@ == left + rest.take(i as int),
                self.line == old(self).line,
                self.col == old(self).col,
                self.current_chunk == old(self).current_chunk,
                self.current_token_source == old(self).current_token_source,
                self.current_token_line == old(self).current_token_line,
                self.current_token_col == old(self).current_token_col,
                self.pos == old(self).pos,
                self.data == old(self).data,
                self.capacity == old(self).capacity,
            decreases n - i,
        {
            let b = self.data[self.pos + i];
            self.leftovers.push(b);
            assert(rest.take(i + 1) =~= rest.take(i as int).push(b));
            assert(self.leftovers@ =~= left + rest.take(i + 1));
            i += 1;
        }
        let ghost buf = self.leftovers@;
        let k = utf8_valid_up_to(&self.leftovers);
        proof {
            lemma_utf8_prefix(buf);
        }
        let mut head: Vec<u8> = Vec::new();
        let mut tail: Vec<u8> = Vec::new();
        let mut j: usize = 0;
        while j < self.leftovers.len()
            invariant
                buf == self.leftovers@,
                self.current_chunk == old(self).current_chunk,
                self.line == old(self).line,
                self.col == old(self).col,
                self.current_token_source == old(self).current_token_source,
                self.current_token_line == old(self).current_token_line,
                self.current_token_col == old(self).current_token_col,
                self.pos == old(self).pos,
                self.data == old(self).data,
                self.capacity == old(self).capacity,
                self.wf(),
                n <= self.data.len() - self.pos,
                rest == self.data@.skip(self.pos as int),
                k <= buf.len(),
                j <= buf.len(),
                head@ == buf.take(if j < k { j as int } else { k as int }),
                tail@ == if j < k { Seq::empty() } else { buf.subrange(k as int, j as int) },
            decreases buf.len() - j,
        {
            let b = self.leftovers[j];
            if j < k {
                assert(buf.take(j + 1) =~= buf.take(j as int).push(b));
                head.push(b);
            } else {
                assert(buf.subrange(k as int, j + 1) =~= buf.subrange(k as int, j as int).push(b));
                tail.push(b);
            }
            j += 1;
        }
        assert(tail@ =~= buf.skip(k as int)) by {
            if buf.len() == k {
                assert(tail@ =~= Seq::<u8>::empty());
            }
        }
        let decoded = decode_utf8_chars(&head);
        let mut d: usize = 0;
        let ghost chunk0 = self.current_chunk@;
        while d < decoded.len()
            invariant
                d <= decoded.len(),
                self.current_chunk@ == chunk0 + decoded@.take(d as int),
                self.leftovers@ == buf,
                self.line == old(self).line,
                self.col == old(self).col,
                self.current_token_source == old(self).current_token_source,
                self.current_token_line == old(self).current_token_line,
                self.current_token_col == old(self).current_token_col,
                self.pos == old(self).pos,
                self.data == old(self).data,
                self.capacity == old(self).capacity,
                self.wf(),
                n <= self.data.len() - self.pos,
                rest == self.data@.skip(self.pos as int),

            decreases decoded.len() - d,
        {
            self.current_chunk.push_back(decoded[d]);
            assert(decoded@.take(d + 1) =~= decoded@.take(d as int).push(decoded[d as int]));
            d += 1;
        }
        assert(decoded@.take(d as int) =~= decoded@);
        self.leftovers = tail;
        self.pos = self.pos + n;
        assert(self.data@.skip(self.pos as int) =~= rest.skip(n as int));
        assert(self.pending() =~= old(self).pending());
    }

    /// Decodes chunks until at least `k` characters are decoded or the input
    /// is exhausted.
    fn fill(&mut self, k: usize)
        requires
            old(self).wf(),
        ensures
            final(self).wf(),
            final(self).state() == old(self).state(),
            final(self).current_token_source == old(self).current_token_source,
            final(self).current_token_line == old(self).current_token_line,
            final(self).current_token_col == old(self).current_token_col,
            final(self).current_chunk@.len() >= k || final(self).current_chunk@ == final(self).pending(),
    {
        while self.current_chunk.len() < k && self.pos < self.data.len() && self.capacity > 0
            invariant
                self.wf(),
                self.state() == old(self).state(),
                self.current_token_source == old(self).current_token_source,
                self.current_token_line == old(self).current_token_line,
                self.current_token_col == old(self).current_token_col,
            decreases self.data.len() - self.pos,
        {
            self.next_chunk();
        }
        if self.pos >= self.data.len() || self.capacity == 0 {
            assert(self.pos >= self.data.len() ==> self.data@.skip(self.pos as int).len() == 0);
            assert(self.pending() =~= self.current_chunk@);
        }
    }

    /// The next character, without reading it.
    fn peek(&mut self) -> (r: Option<char>)
        requires
            old(self).wf(),
        ensures
            final(self).wf(),
            final(self).state() == old(self).state(),
            final(self).current_token_source == old(self).current_token_source,
            final(self).current_token_line == old(self).current_token_line,
            final(self).current_token_col == old(self).current_token_col,
            r == if old(self).state().chars.len() > 0 {
                Some(old(self).state().chars[0])
            } else {
                None::<char>
            },
    {
        self.fill(1);
        if self.current_chunk.len() > 0 {
            Some(self.current_chunk[0])
        } else {
            None
        }
    }

    /// The character after the next one, without reading either.
    fn peek_next(&mut self) -> (r: Option<char>)
        requires
            old(self).wf(),
        ensures
            final(self).wf(),
            final(self).state() == old(self).state(),
            final(self).current_token_source == old(self).current_token_source,
            final(self).current_token_line == old(self).current_token_line,
            final(self).current_token_col == old(self).current_token_col,
            r == if old(self).state().chars.len() > 1 {
                Some(old(self).state().chars[1])
            } else {
                None::<char>
            },
    {
        self.fill(2);
        if self.current_chunk.len() > 1 {
            Some(self.current_chunk[1])
        } else {
            None
        }
    }

    /// Reads the next character, adds it to the current token's text and
    /// moves the position on.
    fn advance(&mut self) -> (r: Option<char>)
        requires
            old(self).wf(),
        ensures
            final(self).wf(),
            final(self).current_token_line == old(self).current_token_line,
            final(self).current_token_col == old(self).current_token_col,
            old(self).state().chars.len() > 0 ==> {
                &&& r == Some(old(self).state().chars[0])
                &&& final(self).state() == step(old(self).state())
                &&& final(self).current_token_source@ == old(self).current_token_source@.push(
                    old(self).state().chars[0],
                )
            },
            old(self).state().chars.len() == 0 ==> {
                &&& r is None
                &&& final(self).state() == old(self).state()
                &&& final(self).current_token_source == old(self).current_token_source
            },
    {
        self.fill(1);
        match self.current_chunk.pop_front() {
            Some(c) => {
                self.current_token_source.push(c);
                if c == '\n' {
                    self.line = self.line.saturating_add(1);
                    self.col = 0;
                } else {
                    self.col = self.col.saturating_add(1);
                }
                assert(self.pending() =~= old(self).pending().skip(1));
                Some(c)
            },
            None => None,
        }
    }
    /// The lexer has read the first `k` characters of the token that starts
    /// at `ws`.
    closed spec fn tracking(self, ws: LexState, k: nat) -> bool {
        &&& self.wf()
        &&& k <= ws.chars.len()
        &&& self.state() == advance_by(ws, k)
        &&& self.state().chars == ws.chars.skip(k as int)
        &&& self.current_token_source@ == ws.chars.take(k as int)
        &&& self.current_token_line == ws.line
        &&& self.current_token_col == ws.col
    }

    fn advance_in(&mut self, Ghost(ws): Ghost<LexState>, Ghost(k): Ghost<nat>) -> (c: char)
        requires
            old(self).tracking(ws, k),
            k < ws.chars.len(),
        ensures
            final(self).tracking(ws, k + 1),
            c == ws.chars[k as int],
    {
        let r = self.advance();
        proof {
            lemma_advance_by_chars(ws, k + 1);
            assert(ws.chars.take(k as int).push(ws.chars[k as int]) =~= ws.chars.take((k + 1) as int));
        }
        r.unwrap()
    }

    fn new_token(&mut self, token_type: TokenType) -> (r: Token)
        requires
            old(self).wf(),
        ensures
            final(self).wf(),
            final(self).state() == old(self).state(),
            r@ == (TokenView {
                kind: token_type,
                line: old(self).current_token_line,
                col: old(self).current_token_col,
                source: old(self).current_token_source@,
            }),
    {
        let source = string_from_chars(&self.current_token_source);
        self.current_token_source.clear();
        Token::new(token_type, self.current_token_line, self.current_token_col, source)
    }

    fn new_error_token(&self, message: &str) -> (r: Token)
        ensures
            r@ == (TokenView {
                kind: TokenType::Error,
                line: self.current_token_line,
                col: self.current_token_col,
                source: message@,
            }),
    {
        Token::new_error(self.current_token_line, self.current_token_col, message.to_owned())
    }

    fn skip_whitespace(&mut self)
        requires
            old(self).wf(),
        ensures
            final(self).wf(),
            final(self).state() == skip_trivia(old(self).state(), false),
            final(self).current_token_source@.len() == 0,
    {
        let mut in_comment = false;
        loop
            invariant
                self.wf(),
                skip_trivia(self.state(), in_comment) == skip_trivia(old(self).state(), false),
            ensures
                self.wf(),
                self.state() == skip_trivia(old(self).state(), false),
            decreases self.state().chars.len(), (if in_comment { 1int } else { 0int }),
        {
            match self.peek() {
                None => break,
                Some(c) => {
                    if in_comment {
                        if c == '\n' {
                            in_comment = false;
                        } else {
                            self.advance();
                        }
                    } else if c == ' ' || c == '\t' || c == '\r' || c == '\n' {
                        self.advance();
                    } else if c == '/' && self.peek_next() == Some('/') {
                        self.advance();
                        self.advance();
                        in_comment = true;
                    } else {
                        break;
                    }
                },
            }
        }
        self.current_token_source.clear();
    }

    fn consume_string_literal(&mut self, Ghost(ws): Ghost<LexState>) -> (r: Token)
        requires
            old(self).tracking(ws, 1),
            ws.chars.len() > 0,
            ws.chars[0] == '"',
        ensures
            final(self).wf(),
            r@ == token_at(ws),
            final(self).state() == advance_by(ws, lex(ws.chars).1),
    {
        let ghost t = ws.chars;
        let ghost mut k: nat = 1;
        assert(t.skip(1) == t.skip(k as int));
        loop
            invariant
                1 <= k <= t.len(),
                t == ws.chars,
                self.tracking(ws, k),
                string_len(t.skip(1)) == opt_add(string_len(t.skip(k as int)), (k - 1) as nat),
                t[0] == '"',
            decreases t.len() - k,
        {
            match self.peek() {
                None => {
                    proof {
                        assert(t.skip(k as int).len() == 0);
                        assert(string_len(t.skip(k as int)) is None);
                    }
                    return self.new_error_token("Unterminated string literal");
                },
                Some(c) => {
                    let ghost cur = t.skip(k as int);
                    if c == '"' {
                        self.advance_in(Ghost(ws), Ghost(k));
                        proof {
                            k = k + 1;
                        }
                        return self.new_token(TokenType::StringLiteral);
                    } else if c == '\\' && self.peek_next().is_some() {
                        self.advance_in(Ghost(ws), Ghost(k));
                        self.advance_in(Ghost(ws), Ghost(k + 1));
                        proof {
                            assert(cur.skip(2) =~= t.skip((k + 2) as int));
                            k = k + 2;
                        }
                    } else {
                        self.advance_in(Ghost(ws), Ghost(k));
                        proof {
                            assert(cur.skip(1) =~= t.skip((k + 1) as int));
                            k = k + 1;
                        }
                    }
                },
            }
        }
    }

    fn consume_char_literal(&mut self, Ghost(ws): Ghost<LexState>) -> (r: Token)
        requires
            old(self).tracking(ws, 1),
            ws.chars.len() > 0,
            ws.chars[0] == '\'',
        ensures
            final(self).wf(),
            r@ == token_at(ws),
            final(self).state() == advance_by(ws, lex(ws.chars).1),
    {
        let ghost t = ws.chars;
        let ghost mut k: nat = 1;
        assert(t.skip(1) == t.skip(k as int));
        loop
            invariant
                1 <= k <= t.len(),
                t == ws.chars,
                self.tracking(ws, k),
                char_len(t.skip(1)) == opt_add(char_len(t.skip(k as int)), (k - 1) as nat),
                t[0] == '\'',
            decreases t.len() - k,
        {
            match self.peek() {
                None => {
                    proof {
                        assert(t.skip(k as int).len() == 0);
                        assert(char_len(t.skip(k as int)) is None);
                    }
                    return self.new_error_token("Unterminated char literal");
                },
                Some(c) => {
                    let ghost cur = t.skip(k as int);
                    self.advance_in(Ghost(ws), Ghost(k));
                    if c == '\'' {
                        proof {
                            k = k + 1;
                        }
                        return self.new_token(TokenType::CharLiteral);
                    }
                    proof {
                        assert(cur.skip(1) =~= t.skip((k + 1) as int));
                        k = k + 1;
                    }
                },
            }
        }
    }

    /// Reads the digits that follow; returns how many it read.
    fn consume_digits(&mut self, Ghost(ws): Ghost<LexState>, Ghost(k0): Ghost<nat>)
        requires
            old(self).tracking(ws, k0),
        ensures
            final(self).tracking(ws, k0 + digits_len(ws.chars.skip(k0 as int))),
    {
        let ghost t = ws.chars;
        let ghost mut k: nat = k0;
        loop
            invariant
                k0 <= k <= t.len(),
                t == ws.chars,
                self.tracking(ws, k),
                k0 + digits_len(t.skip(k0 as int)) == k + digits_len(t.skip(k as int)),
            ensures
                self.tracking(ws, k0 + digits_len(t.skip(k0 as int))),
            decreases t.len() - k,
        {
            match self.peek() {
                Some(c) if '0' <= c && c <= '9' => {
                    let ghost cur = t.skip(k as int);
                    self.advance_in(Ghost(ws), Ghost(k));
                    proof {
                        assert(cur.skip(1) =~= t.skip((k + 1) as int));
                        k = k + 1;
                    }
                },
                _ => break,
            }
        }
    }

    fn consume_numeric_literal(&mut self, Ghost(ws): Ghost<LexState>) -> (r: Token)
        requires
            old(self).tracking(ws, 1),
            ws.chars.len() > 0,
            is_digit(ws.chars[0]),
        ensures
            final(self).wf(),
            r@ == token_at(ws),
            final(self).state() == advance_by(ws, lex(ws.chars).1),
    {
        let ghost t = ws.chars;
        proof {
            assert(t.skip(1) =~= t.skip(1));
        }
        self.consume_digits(Ghost(ws), Ghost(1));
        let ghost n = digits_len(t);
        proof {
            lemma_digits_len(t);
            assert(n == 1 + digits_len(t.skip(1)));
        }
        let dot = self.peek();
        let after = self.peek_next();
        match (dot, after) {
            (Some('.'), Some(d)) if '0' <= d && d <= '9' => {
                self.advance_in(Ghost(ws), Ghost(n));
                self.consume_digits(Ghost(ws), Ghost(n + 1));
                self.new_token(TokenType::FloatLiteral)
            },
            _ => self.new_token(TokenType::IntegerLiteral),
        }
    }

    fn consume_identifier(&mut self, Ghost(ws): Ghost<LexState>) -> (r: Token)
        requires
            old(self).tracking(ws, 1),
            ws.chars.len() > 0,
            is_ident_char(ws.chars[0]),
        ensures
            final(self).wf(),
            r@ == token_at(ws),
            final(self).state() == advance_by(ws, lex(ws.chars).1),
    {
        let ghost t = ws.chars;
        let ghost mut k: nat = 1;
        loop
            invariant
                1 <= k <= t.len(),
                t == ws.chars,
                self.tracking(ws, k),
                ident_len(t) == k + ident_len(t.skip(k as int)),
            ensures
                self.tracking(ws, ident_len(t)),
            decreases t.len() - k,
        {
            match self.peek() {
                Some(c) if ('a' <= c && c <= 'z') || ('A' <= c && c <= 'Z') || c == '_' => {
                    let ghost cur = t.skip(k as int);
                    self.advance_in(Ghost(ws), Ghost(k));
                    proof {
                        assert(cur.skip(1) =~= t.skip((k + 1) as int));
                        k = k + 1;
                    }
                },
                _ => break,
            }
        }
        let kind = self.get_identifier_type();
        self.new_token(kind)
    }

    /// Whether the identifier just read is a keyword.
    fn get_identifier_type(&self) -> (r: TokenType)
        ensures
            r == keyword_kind(self.current_token_source@),
    {
        let s = &self.current_token_source;
        if s.len() == 4 && s[0] == 't' && s[1] == 'r' && s[2] == 'u' && s[3] == 'e' {
            assert(s@ =~= seq!['t', 'r', 'u', 'e']);
            TokenType::True
        } else if s.len() == 5 && s[0] == 'f' && s[1] == 'a' && s[2] == 'l' && s[3] == 's' && s[4]
            == 'e' {
            assert(s@ =~= seq!['f', 'a', 'l', 's', 'e']);
            TokenType::False
        } else if s.len() == 4 && s[0] == 'n' && s[1] == 'u' && s[2] == 'l' && s[3] == 'l' {
            assert(s@ =~= seq!['n', 'u', 'l', 'l']);
            TokenType::Null
        } else {
            proof {
                if s@ == seq!['t', 'r', 'u', 'e'] || s@ == seq!['f', 'a', 'l', 's', 'e'] || s@ == seq![
                    'n',
                    'u',
                    'l',
                    'l',
                ] {
                    assert(s@[0] == s@[0]);
                }
            }
            TokenType::Identifier
        }
    }

    /// The next token, or `None` at the end of the input.
    pub fn next(&mut self) -> (r: Option<Token>)
        requires
            old(self).wf(),
        ensures
            final(self).wf(),
            final(self).state() == scan(old(self).state()).1,
            match r {
                Some(t) => t@ == scan(old(self).state()).0 && t@.kind != TokenType::EOF,
                None => scan(old(self).state()).0.kind == TokenType::EOF,
            },
    {
        let token = self.next_token();
        if token.get_type() == TokenType::EOF {
            None
        } else {
            Some(token)
        }
    }

    /// Reads the next token: see `scan`.
    pub fn next_token(&mut self) -> (r: Token)
        requires
            old(self).wf(),
        ensures
            final(self).wf(),
            r@ == scan(old(self).state()).0,
            final(self).state() == scan(old(self).state()).1,
    {
        self.skip_whitespace();
        self.current_token_line = self.line;
        self.current_token_col = self.col;
        let ghost ws = self.state();
        assert(ws.chars.take(0) =~= self.current_token_source@);
        assert(ws.chars.skip(0) =~= ws.chars);
        let c = match self.peek() {
            None => {
                assert(self.current_token_source@ =~= Seq::<char>::empty());
                return self.new_token(TokenType::EOF);
            },
            Some(c) => c,
        };
        self.advance_in(Ghost(ws), Ghost(0));
        proof {
            lemma_lex_len(ws.chars);
        }
        match c {
            '(' => self.new_token(TokenType::LeftParen),
            ')' => self.new_token(TokenType::RightParen),
            '{' => self.new_token(TokenType::LeftCurlyBrace),
            '}' => self.new_token(TokenType::RightCurlyBrace),
            '[' => self.new_token(TokenType::LeftSquareBrace),
            ']' => self.new_token(TokenType::RightSquareBrace),
            ',' => self.new_token(TokenType::Comma),
            '.' => self.new_token(TokenType::Dot),
            ':' => self.new_token(TokenType::Colon),
            '-' => self.new_token(TokenType::Negative),
            '"' => self.consume_string_literal(Ghost(ws)),
            '\'' => self.consume_char_literal(Ghost(ws)),
            '0'..='9' => self.consume_numeric_literal(Ghost(ws)),
            'a'..='z' | 'A'..='Z' | '_' => self.consume_identifier(Ghost(ws)),
            _ => self.new_error_token("Unexpected character"),
        }
    }
}

} // verus!
