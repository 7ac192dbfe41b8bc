use vstd::prelude::*;
use vstd::string::StringSliceAdditionalSpecFns;
use vstd::utf8::*;

use crate::token::{keyword_kind, lookup_ident, Token, TokenType};

verus! {

// ---------------------------------------------------------------------------
// Byte classes
// ---------------------------------------------------------------------------

/// ASCII letters and the underscore make up identifiers and keywords.
pub open spec fn is_letter_byte(b: u8) -> bool {
    ('a' as u8 <= b && b <= 'z' as u8) || ('A' as u8 <= b && b <= 'Z' as u8) || b == '_' as u8
}

pub open spec fn is_digit_byte(b: u8) -> bool {
    '0' as u8 <= b && b <= '9' as u8
}

/// Space, tab and newline separate tokens and are otherwise ignored.
pub open spec fn is_whitespace_byte(b: u8) -> bool {
    b == ' ' as u8 || b == '\t' as u8 || b == '\n' as u8
}

/// The category of a token spelled by the single byte `b`, where no longer
/// token can start with it; `Illegal` for a byte that no token uses.
pub open spec fn single_byte_kind(b: u8) -> TokenType {
    if b == '=' as u8 {
        TokenType::Assign
    } else if b == '+' as u8 {
        TokenType::Plus
    } else if b == '-' as u8 {
        TokenType::Minus
    } else if b == '!' as u8 {
        TokenType::Bang
    } else if b == '*' as u8 {
        TokenType::Asterisk
    } else if b == '/' as u8 {
        TokenType::Slash
    } else if b == '<' as u8 {
        TokenType::Lt
    } else if b == '>' as u8 {
        TokenType::Gt
    } else if b == ',' as u8 {
        TokenType::Comma
    } else if b == ';' as u8 {
        TokenType::Semicolon
    } else if b == '(' as u8 {
        TokenType::LParen
    } else if b == ')' as u8 {
        TokenType::RParen
    } else if b == '{' as u8 {
        TokenType::LBrace
    } else if b == '}' as u8 {
        TokenType::RBrace
    } else {
        TokenType::Illegal
    }
}

// ---------------------------------------------------------------------------
// The scanner as a function on bytes
// ---------------------------------------------------------------------------

/// First index at or after `i` that does not hold whitespace.
pub open spec fn skip_whitespace_from(s: Seq<u8>, i: int) -> int
    decreases s.len() - i,
{
    if 0 <= i < s.len() && is_whitespace_byte(s[i]) {
        skip_whitespace_from(s, i + 1)
    } else {
        i
    }
}

/// End of the maximal run of identifier characters that starts at `i`.
pub open spec fn letters_end(s: Seq<u8>, i: int) -> int
    decreases s.len() - i,
{
    if 0 <= i < s.len() && is_letter_byte(s[i]) {
        letters_end(s, i + 1)
    } else {
        i
    }
}

/// End of the maximal run of decimal digits that starts at `i`.
pub open spec fn digits_end(s: Seq<u8>, i: int) -> int
    decreases s.len() - i,
{
    if 0 <= i < s.len() && is_digit_byte(s[i]) {
        digits_end(s, i + 1)
    } else {
        i
    }
}

/// One token as found in the source: its category and the span
/// `start..end` of bytes it covers.
pub struct Lexeme {
    pub kind: TokenType,
    pub start: int,
    pub end: int,
}

/// The token that a scanner whose cursor stands at `i` produces next.
/// The scanner then continues at `end`.
pub open spec fn scan(s: Seq<u8>, i: int) -> Lexeme {
    let j = skip_whitespace_from(s, i);
    if j >= s.len() {
        Lexeme { kind: TokenType::Eof, start: s.len() as int, end: s.len() as int }
    } else {
        let c = s[j];
        if is_digit_byte(c) {
            Lexeme { kind: TokenType::Int, start: j, end: digits_end(s, j) }
        } else if is_letter_byte(c) {
            let e = letters_end(s, j);
            Lexeme { kind: keyword_kind(s.subrange(j, e)), start: j, end: e }
        } else if c == '=' as u8 && j + 1 < s.len() && s[j + 1] == '=' as u8 {
            Lexeme { kind: TokenType::Eq, start: j, end: j + 2 }
        } else if c == '!' as u8 && j + 1 < s.len() && s[j + 1] == '=' as u8 {
            Lexeme { kind: TokenType::NotEq, start: j, end: j + 2 }
        } else {
            Lexeme { kind: single_byte_kind(c), start: j, end: j + 1 }
        }
    }
}

/// Bytes below 0x80 read as the characters they encode.
pub open spec fn ascii_text(b: Seq<u8>) -> Seq<char> {
    Seq::new(b.len(), |i: int| b[i] as char)
}

/// The text a token for lexeme `l` of source `s` carries: the spelling of an
/// identifier or integer, nothing for the other categories.
pub open spec fn lexeme_text(s: Seq<u8>, l: Lexeme) -> Seq<char> {
    if l.kind == TokenType::Ident || l.kind == TokenType::Int {
        ascii_text(s.subrange(l.start, l.end))
    } else {
        Seq::empty()
    }
}

/// `t` is the token that stands for lexeme `l` of source `s`.
pub open spec fn denotes(t: Token, s: Seq<u8>, l: Lexeme) -> bool {
    t.spec_kind() == l.kind && t.spec_text() == lexeme_text(s, l)
}

/// Where the cursor stands after `n` tokens have been scanned from `i`.
pub open spec fn cursor_after(s: Seq<u8>, i: int, n: nat) -> int
    decreases n,
{
    if n == 0 {
        i
    } else {
        scan(s, cursor_after(s, i, (n - 1) as nat)).end
    }
}

/// The token produced by the `n`-th call (counting from zero) of a scanner
/// that started at `i`.
pub open spec fn nth_lexeme(s: Seq<u8>, i: int, n: nat) -> Lexeme {
    scan(s, cursor_after(s, i, n))
}

// ---------------------------------------------------------------------------
// Facts about the scanner function
// ---------------------------------------------------------------------------

pub proof fn lemma_skip_whitespace_from(s: Seq<u8>, i: int)
    requires
        0 <= i <= s.len(),
    ensures
        i <= skip_whitespace_from(s, i) <= s.len(),
        skip_whitespace_from(s, i) < s.len() ==> !is_whitespace_byte(
            s[skip_whitespace_from(s, i)],
        ),
    decreases s.len() - i,
{
    if i < s.len() && is_whitespace_byte(s[i]) {
        lemma_skip_whitespace_from(s, i + 1);
    }
}

pub proof fn lemma_letters_end(s: Seq<u8>, i: int)
    requires
        0 <= i <= s.len(),
    ensures
        i <= letters_end(s, i) <= s.len(),
        forall|k: int| i <= k < letters_end(s, i) ==> is_letter_byte(#[trigger] s[k]),
    decreases s.len() - i,
{
    if i < s.len() && is_letter_byte(s[i]) {
        lemma_letters_end(s, i + 1);
    }
}

pub proof fn lemma_digits_end(s: Seq<u8>, i: int)
    requires
        0 <= i <= s.len(),
    ensures
        i <= digits_end(s, i) <= s.len(),
        forall|k: int| i <= k < digits_end(s, i) ==> is_digit_byte(#[trigger] s[k]),
    decreases s.len() - i,
{
    if i < s.len() && is_digit_byte(s[i]) {
        lemma_digits_end(s, i + 1);
    }
}

/// A lexeme lies within the source, after the cursor; every token but the end
/// token covers at least one byte, and the end token leaves the cursor at the
/// end of the source.
pub proof fn lemma_scan_bounds(s: Seq<u8>, i: int)
    requires
        0 <= i <= s.len(),
    ensures
        i <= scan(s, i).start <= scan(s, i).end <= s.len(),
        scan(s, i).kind == TokenType::Eof <==> scan(s, i).start == s.len(),
        scan(s, i).kind == TokenType::Eof ==> scan(s, i).end == s.len(),
        scan(s, i).kind != TokenType::Eof ==> scan(s, i).start < scan(s, i).end,
{
    let j = skip_whitespace_from(s, i);
    lemma_skip_whitespace_from(s, i);
    if j < s.len() {
        lemma_letters_end(s, j + 1);
        lemma_digits_end(s, j + 1);
        if is_letter_byte(s[j]) {
            let w = s.subrange(j, letters_end(s, j));
            assert(w.len() > 0);
            assert(keyword_kind(w) != TokenType::Eof);
        }
    }
}

/// At the end of the source the scanner produces the end token and stays put.
pub proof fn lemma_scan_at_end(s: Seq<u8>)
    ensures
        scan(s, s.len() as int) == (Lexeme {
            kind: TokenType::Eof,
            start: s.len() as int,
            end: s.len() as int,
        }),
{
}

/// Every cursor reached by scanning from `i` lies between `i` and the end.
pub proof fn lemma_cursor_after_bounds(s: Seq<u8>, i: int, n: nat)
    requires
        0 <= i <= s.len(),
    ensures
        i <= cursor_after(s, i, n) <= s.len(),
    decreases n,
{
    if n > 0 {
        lemma_cursor_after_bounds(s, i, (n - 1) as nat);
        lemma_scan_bounds(s, cursor_after(s, i, (n - 1) as nat));
    }
}

/// Once the end token has been produced, every later call produces it again.
pub proof fn lemma_eof_is_terminal(s: Seq<u8>, i: int, n: nat, m: nat)
    requires
        0 <= i <= s.len(),
        n <= m,
        nth_lexeme(s, i, n).kind == TokenType::Eof,
    ensures
        nth_lexeme(s, i, m).kind == TokenType::Eof,
        cursor_after(s, i, m) == s.len() || m == n,
    decreases m - n,
{
    if m > n {
        lemma_eof_is_terminal(s, i, n, (m - 1) as nat);
        lemma_cursor_after_bounds(s, i, (m - 1) as nat);
        lemma_scan_bounds(s, cursor_after(s, i, (m - 1) as nat));
        lemma_scan_at_end(s);
    }
}

/// Before the end token is reached, each call moves the cursor forward.
proof fn lemma_progress(s: Seq<u8>, i: int, n: nat)
    requires
        0 <= i <= s.len(),
        nth_lexeme(s, i, n).kind != TokenType::Eof,
    ensures
        cursor_after(s, i, n) >= i + n,
    decreases n,
{
    if n > 0 {
        let p = (n - 1) as nat;
        lemma_cursor_after_bounds(s, i, p);
        lemma_scan_bounds(s, cursor_after(s, i, p));
        if nth_lexeme(s, i, p).kind == TokenType::Eof {
            lemma_scan_at_end(s);
        } else {
            lemma_progress(s, i, p);
        }
    }
}

/// The token stream of every source ends: a scanner started at `i` produces
/// the end token by its call number `s.len() - i` (counting from zero), and
/// after the end token has been produced once, every further call produces it
/// again.
pub proof fn lemma_token_stream_ends(s: Seq<u8>, i: int)
    requires
        0 <= i <= s.len(),
    ensures
        nth_lexeme(s, i, (s.len() - i) as nat).kind == TokenType::Eof,
        forall|n: nat, m: nat|
            n <= m && #[trigger] nth_lexeme(s, i, n).kind == TokenType::Eof
                ==> #[trigger] nth_lexeme(s, i, m).kind == TokenType::Eof,
{
    let k = (s.len() - i) as nat;
    if nth_lexeme(s, i, k).kind != TokenType::Eof {
        lemma_progress(s, i, k);
        lemma_cursor_after_bounds(s, i, k);
        lemma_scan_at_end(s);
    }
    assert forall|n: nat, m: nat|
        n <= m && #[trigger] nth_lexeme(s, i, n).kind == TokenType::Eof
            implies #[trigger] nth_lexeme(s, i, m).kind == TokenType::Eof by {
        lemma_eof_is_terminal(s, i, n, m);
    }
}

// ---------------------------------------------------------------------------
// Text of ASCII runs
// ---------------------------------------------------------------------------

/// In valid UTF-8, the position right after an ASCII byte starts a character.
proof fn lemma_boundary_after_ascii(b: Seq<u8>, idx: int)
    requires
        valid_utf8(b),
        0 < idx <= b.len(),
        b[idx - 1] < 0x80,
    ensures
        is_char_boundary(b, idx),
{
    if idx < b.len() {
        is_char_boundary_iff_not_is_continuation_byte(b, idx - 1);
        valid_utf8_split(b, idx - 1);
        let t = b.subrange(idx - 1, b.len() as int);
        let u = b.subrange(idx, b.len() as int);
        assert(pop_first_scalar(t) =~= u);
        assert(valid_utf8(u));
        assert(u[0] == b[idx]);
        is_char_boundary_iff_not_is_continuation_byte(b, idx);
    } else {
        is_char_boundary_start_end_of_seq(b);
    }
}

/// Valid UTF-8 made of ASCII bytes only decodes byte for byte.
proof fn lemma_decode_ascii(b: Seq<u8>)
    requires
        valid_utf8(b),
        forall|k: int| 0 <= k < b.len() ==> #[trigger] b[k] < 0x80,
    ensures
        decode_utf8(b) == ascii_text(b),
    decreases b.len(),
{
    if b.len() > 0 {
        let rest = pop_first_scalar(b);
        assert(rest =~= b.subrange(1, b.len() as int));
        lemma_decode_ascii(rest);
        let b0 = b[0];
        assert(b0 & 0x7f == b0) by (bit_vector)
            requires
                b0 < 0x80,
        ;
        assert(decode_utf8(b) =~= ascii_text(b));
    }
}

/// The characters of `input[start..end]`, a run of ASCII bytes.
fn ascii_slice_text(input: &str, start: usize, end: usize) -> (r: String)
    requires
        start < end <= input.spec_bytes().len(),
        forall|k: int| start <= k < end ==> #[trigger] input.spec_bytes()[k] < 0x80,
    ensures
        r@ == ascii_text(input.spec_bytes().subrange(start as int, end as int)),
{
    let ghost b = input.spec_bytes();
    proof {
        encode_utf8_valid_utf8(input@);
        is_char_boundary_iff_not_is_continuation_byte(b, start as int);
    }
    let (_, rest) = input.split_at(start);
    proof {
        encode_utf8_valid_utf8(rest@);
        assert(rest.spec_bytes()[(end - start) - 1] == b[end - 1]);
        lemma_boundary_after_ascii(rest.spec_bytes(), (end - start) as int);
    }
    let (word, _) = rest.split_at(end - start);
    let r = word.to_owned();
    proof {
        let wb = b.subrange(start as int, end as int);
        assert(word.spec_bytes() =~= wb);
        encode_utf8_decode_utf8(word@);
        encode_utf8_valid_utf8(word@);
        lemma_decode_ascii(wb);
    }
    r
}

// ---------------------------------------------------------------------------
// The scanner
// ---------------------------------------------------------------------------

/// A scanner over a source text. It reads the text one byte at a time and
/// hands out one token per call of `next_token`.
pub struct Lexer<'a> {
    input: &'a str,
    /// Index of the byte under examination.
    position: usize,
    /// The byte at `position`, or 0 once the cursor has passed the end.
    ch: u8,
}

impl<'a> Lexer<'a> {
    /// The source text as bytes.
    pub closed spec fn source(&self) -> Seq<u8> {
        self.input.spec_bytes()
    }

    /// Index of the byte from which the next token is scanned.
    pub closed spec fn cursor(&self) -> int {
        self.position as int
    }

    pub closed spec fn wf(&self) -> bool {
        &&& self.input.spec_bytes().len() <= usize::MAX
        &&& self.position <= self.input.spec_bytes().len()
        &&& self.ch == (if self.position < self.input.spec_bytes().len() {
            self.input.spec_bytes()[self.position as int]
        } else {
            0u8
        })
    }

    /// The cursor of a well-formed scanner lies within its source.
    pub proof fn lemma_cursor_bounds(&self)
        requires
            self.wf(),
        ensures
            0 <= self.cursor() <= self.source().len(),
    {
    }

    /// A scanner at the first byte of `input`.
    pub fn new(input: &'a str) -> (l: Self)
        ensures
            l.wf(),
            l.source() == input.spec_bytes(),
            l.cursor() == 0,
    {
        let bytes = input.as_bytes();
        let ch = if bytes.len() > 0 {
            bytes[0]
        } else {
            0
        };
        Lexer { input, position: 0, ch }
    }

    /// Moves the cursor one byte on and loads the byte there, or 0 once the
    /// cursor is past the end of the input.
    fn read_char(&mut self)
        requires
            old(self).position < usize::MAX,
        ensures
            final(self).input == old(self).input,
            final(self).position == old(self).position + 1,
            final(self).ch == (if old(self).position + 1 < old(self).input.spec_bytes().len() {
                old(self).input.spec_bytes()[old(self).position + 1]
            } else {
                0u8
            }),
    {
        self.position = self.position + 1;
        let bytes = self.input.as_bytes();
        if self.position >= bytes.len() {
            self.ch = 0;
        } else {
            self.ch = bytes[self.position];
        }
    }

    fn peek_char(&self) -> (r: u8)
        requires
            self.wf(),
        ensures
            r == (if self.position + 1 < self.input.spec_bytes().len() {
                self.input.spec_bytes()[self.position + 1]
            } else {
                0u8
            }),
    {
        if self.input.len() - self.position <= 1 {
            0
        } else {
            self.input.as_bytes()[self.position + 1]
        }
    }

    /// The token spelled by the single byte `c`.
    fn new_token(&self, c: u8) -> (t: Token)
        ensures
            t.spec_kind() == single_byte_kind(c),
            t.spec_text() == Seq::<char>::empty(),
    {
        if c == '=' as u8 {
            Token::Assign
        } else if c == '+' as u8 {
            Token::Plus
        } else if c == '-' as u8 {
            Token::Minus
        } else if c == '!' as u8 {
            Token::Bang
        } else if c == '*' as u8 {
            Token::Asterisk
        } else if c == '/' as u8 {
            Token::Slash
        } else if c == '<' as u8 {
            Token::Lt
        } else if c == '>' as u8 {
            Token::Gt
        } else if c == ',' as u8 {
            Token::Comma
        } else if c == ';' as u8 {
            Token::Semicolon
        } else if c == '(' as u8 {
            Token::LParen
        } else if c == ')' as u8 {
            Token::RParen
        } else if c == '{' as u8 {
            Token::LBrace
        } else if c == '}' as u8 {
            Token::RBrace
        } else {
            Token::Illegal
        }
    }

    fn is_letter(&self, c: u8) -> (r: bool)
        ensures
            r == is_letter_byte(c),
    {
        ('a' as u8 <= c && c <= 'z' as u8) || ('A' as u8 <= c && c <= 'Z' as u8) || c == '_' as u8
    }

    fn skip_whitespace(&mut self)
        requires
            old(self).wf(),
        ensures
            final(self).wf(),
            final(self).input == old(self).input,
            final(self).position == skip_whitespace_from(
                old(self).input.spec_bytes(),
                old(self).position as int,
            ),
    {
        let ghost s = self.input.spec_bytes();
        let ghost input = self.input;
        let ghost target = skip_whitespace_from(s, self.position as int);
        while self.ch == ' ' as u8 || self.ch == '\t' as u8 || self.ch == '\n' as u8
            invariant
                self.wf(),
                self.input == input,
                self.input.spec_bytes() == s,
                skip_whitespace_from(s, self.position as int) == target,
            decreases s.len() - self.position,
        {
            self.read_char();
        }
    }

    /// Reads a maximal run of identifier characters starting at the cursor and
    /// returns its keyword token, or an identifier token with its text.
    fn read_identifier(&mut self) -> (t: Token)
        requires
            old(self).wf(),
            old(self).position < old(self).input.spec_bytes().len(),
            is_letter_byte(old(self).ch),
        ensures
            final(self).wf(),
            final(self).input == old(self).input,
            final(self).position == letters_end(
                old(self).input.spec_bytes(),
                old(self).position as int,
            ),
            denotes(
                t,
                old(self).input.spec_bytes(),
                Lexeme {
                    kind: keyword_kind(
                        old(self).input.spec_bytes().subrange(
                            old(self).position as int,
                            letters_end(old(self).input.spec_bytes(), old(self).position as int),
                        ),
                    ),
                    start: old(self).position as int,
                    end: letters_end(old(self).input.spec_bytes(), old(self).position as int),
                },
            ),
    {
        let ghost s = self.input.spec_bytes();
        let ghost input = self.input;
        let start = self.position;
        proof {
            lemma_letters_end(s, start as int);
        }
        while self.is_letter(self.ch)
            invariant
                self.wf(),
                self.input == input,
                self.input.spec_bytes() == s,
                start <= self.position,
                letters_end(s, self.position as int) == letters_end(s, start as int),
            decreases s.len() - self.position,
        {
            self.read_char();
        }
        let kind = lookup_ident(self.input.as_bytes(), start, self.position);
        let text = ascii_slice_text(self.input, start, self.position);
        Token::new(kind, text)
    }

    /// Reads a maximal run of decimal digits starting at the cursor and returns
    /// an integer token with its text.
    fn consume_number(&mut self) -> (t: Token)
        requires
            old(self).wf(),
            old(self).position < old(self).input.spec_bytes().len(),
            is_digit_byte(old(self).ch),
        ensures
            final(self).wf(),
            final(self).input == old(self).input,
            final(self).position == digits_end(
                old(self).input.spec_bytes(),
                old(self).position as int,
            ),
            denotes(
                t,
                old(self).input.spec_bytes(),
                Lexeme {
                    kind: TokenType::Int,
                    start: old(self).position as int,
                    end: digits_end(old(self).input.spec_bytes(), old(self).position as int),
                },
            ),
    {
        let ghost s = self.input.spec_bytes();
        let ghost input = self.input;
        let start = self.position;
        proof {
            lemma_digits_end(s, start as int);
        }
        while '0' as u8 <= self.ch && self.ch <= '9' as u8
            invariant
                self.wf(),
                self.input == input,
                self.input.spec_bytes() == s,
                start <= self.position,
                digits_end(s, self.position as int) == digits_end(s, start as int),
            decreases s.len() - self.position,
        {
            self.read_char();
        }
        let text = ascii_slice_text(self.input, start, self.position);
        Token::Int(text)
    }
    /// Skips whitespace and returns the token that follows, moving the cursor
    /// past it. At the end of the source it returns `Eof` and stays there, so
    /// every later call returns `Eof` again.
    pub fn next_token(&mut self) -> (t: Token)
        requires
            old(self).wf(),
        ensures
            final(self).wf(),
            final(self).source() == old(self).source(),
            final(self).cursor() == scan(old(self).source(), old(self).cursor()).end,
            denotes(t, old(self).source(), scan(old(self).source(), old(self).cursor())),
    {
        proof {
            lemma_skip_whitespace_from(self.input.spec_bytes(), self.position as int);
        }
        self.skip_whitespace();
        if self.position >= self.input.len() {
            return Token::Eof;
        }
        let c = self.ch;
        if '0' as u8 <= c && c <= '9' as u8 {
            return self.consume_number();
        }
        if self.is_letter(c) {
            return self.read_identifier();
        }
        let t = if c == '=' as u8 && self.peek_char() == '=' as u8 {
            self.read_char();
            Token::Eq
        } else if c == '!' as u8 && self.peek_char() == '=' as u8 {
            self.read_char();
            Token::NotEq
        } else {
            self.new_token(c)
        };
        self.read_char();
        t
    }
}

} // verus!
