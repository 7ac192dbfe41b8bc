use vstd::prelude::*;
use vstd::string::{is_ascii, StringExecFns, StringSliceAdditionalSpecFns};

use crate::ast::{Expression, ExpressionModel, Precedence, Program, Statement, StatementModel};
use crate::lexer::{
    denotes, is_digit_byte, lemma_digits_end, lemma_scan_bounds, lexeme_text, scan, Lexer,
};
use crate::token::{token_type_name, Token, TokenType};

verus! {

// ---------------------------------------------------------------------------
// Errors
// ---------------------------------------------------------------------------

/// A problem found while parsing. Errors are collected, never raised: parsing
/// goes on after each of them.
#[derive(Clone, Debug, PartialEq, Eq)]
pub enum ParseError {
    /// The next token had to be of category `expected` and was of `actual`.
    UnexpectedToken { expected: TokenType, actual: TokenType },
    /// The digits of an integer literal do not fit in a 64-bit signed integer.
    FailedToParseInteger(String),
}

/// Mathematical value of a `ParseError`.
pub enum ParseErrorModel {
    UnexpectedToken { expected: TokenType, actual: TokenType },
    FailedToParseInteger(Seq<char>),
}

impl View for ParseError {
    type V = ParseErrorModel;

    open spec fn view(&self) -> ParseErrorModel {
        match self {
            ParseError::UnexpectedToken { expected, actual } => ParseErrorModel::UnexpectedToken {
                expected: *expected,
                actual: *actual,
            },
            ParseError::FailedToParseInteger(text) => ParseErrorModel::FailedToParseInteger(
                text@,
            ),
        }
    }
}

/// The message that describes an error.
pub open spec fn error_message(e: ParseErrorModel) -> Seq<char> {
    match e {
        ParseErrorModel::UnexpectedToken { expected, actual } => "expected next token to be "@
            + token_type_name(expected) + ", got "@ + token_type_name(actual) + " instead"@,
        ParseErrorModel::FailedToParseInteger(text) => "could not parse "@ + text
            + " as integer"@,
    }
}

impl ParseError {
    /// A message that describes this error.
    pub fn message(&self) -> (r: String)
        ensures
            r@ == error_message(self@),
    {
        let mut out = String::new();
        match self {
            ParseError::UnexpectedToken { expected, actual } => {
                out.append("expected next token to be ");
                out.append(expected.name());
                out.append(", got ");
                out.append(actual.name());
                out.append(" instead");
            },
            ParseError::FailedToParseInteger(text) => {
                out.append("could not parse ");
                out.append(text.as_str());
                out.append(" as integer");
            },
        }
        out
    }
}

// ---------------------------------------------------------------------------
// The parser as a function on the token stream
// ---------------------------------------------------------------------------
//
// A parser state is named by the scanner position `q` from which its current
// token was scanned: the current token is `scan(s, q)` and the peek token is
// `scan(s, after(s, q))`.

/// Category of the token scanned from `q`.
pub open spec fn kind_at(s: Seq<u8>, q: int) -> TokenType {
    scan(s, q).kind
}

/// Text of the token scanned from `q`.
pub open spec fn text_at(s: Seq<u8>, q: int) -> Seq<char> {
    lexeme_text(s, scan(s, q))
}

/// Scanner position right after the token scanned from `q`: the position
/// of the next token.
pub open spec fn after(s: Seq<u8>, q: int) -> int {
    scan(s, q).end
}

/// Value of a string of decimal digits.
pub open spec fn decimal_value(t: Seq<char>) -> int
    decreases t.len(),
{
    if t.len() == 0 {
        0
    } else {
        decimal_value(t.drop_last()) * 10 + (t.last() as int - '0' as int)
    }
}

/// The position of the first `;` or end token at or after `q`.
pub open spec fn skip_to_semicolon(s: Seq<u8>, q: int) -> int
    decreases s.len() - q,
{
    if 0 <= q <= s.len() && kind_at(s, q) != TokenType::Semicolon && kind_at(s, q)
        != TokenType::Eof {
        proof {
            lemma_scan_bounds(s, q);
        }
        skip_to_semicolon(s, after(s, q))
    } else {
        q
    }
}

/// What parsing one statement yields: the statement (if any), the
/// errors recorded on the way, and the position of the current token after it.
pub struct Parsed {
    pub node: Option<StatementModel>,
    pub errors: Seq<ParseErrorModel>,
    pub next: int,
}

/// The integer literal whose text is `t`: its value, or 0 together with an
/// error when the value does not fit in an `i64`.
pub open spec fn integer_literal(t: Seq<char>) -> (ExpressionModel, Seq<ParseErrorModel>) {
    if decimal_value(t) <= i64::MAX {
        (ExpressionModel::IntegerLiteral(decimal_value(t)), Seq::empty())
    } else {
        (ExpressionModel::IntegerLiteral(0), seq![ParseErrorModel::FailedToParseInteger(t)])
    }
}

/// The expression that starts with the token scanned from `q`. Only
/// identifiers and integers start an expression.
pub open spec fn expression_at(s: Seq<u8>, q: int) -> (
    Option<ExpressionModel>,
    Seq<ParseErrorModel>,
) {
    if kind_at(s, q) == TokenType::Ident {
        (Some(ExpressionModel::Identifier(text_at(s, q))), Seq::empty())
    } else if kind_at(s, q) == TokenType::Int {
        let (e, errs) = integer_literal(text_at(s, q));
        (Some(e), errs)
    } else {
        (None, Seq::empty())
    }
}

/// `let <ident> = ... ;` with the current token at `let`.
pub open spec fn let_statement_at(s: Seq<u8>, q: int) -> Parsed {
    let q1 = after(s, q);
    let q2 = after(s, q1);
    if kind_at(s, q1) != TokenType::Ident {
        Parsed {
            node: None,
            errors: seq![
                ParseErrorModel::UnexpectedToken {
                    expected: TokenType::Ident,
                    actual: kind_at(s, q1),
                },
            ],
            next: q,
        }
    } else if kind_at(s, q2) != TokenType::Assign {
        Parsed {
            node: None,
            errors: seq![
                ParseErrorModel::UnexpectedToken {
                    expected: TokenType::Assign,
                    actual: kind_at(s, q2),
                },
            ],
            next: q1,
        }
    } else {
        Parsed {
            node: Some(
                StatementModel::Let { name: ExpressionModel::Identifier(text_at(s, q1)) },
            ),
            errors: Seq::empty(),
            next: skip_to_semicolon(s, q2),
        }
    }
}

/// `return ... ;` with the current token at `return`.
pub open spec fn return_statement_at(s: Seq<u8>, q: int) -> Parsed {
    Parsed {
        node: Some(StatementModel::Return),
        errors: Seq::empty(),
        next: skip_to_semicolon(s, after(s, q)),
    }
}

/// An expression used as a statement, with an optional `;` after it.
pub open spec fn expression_statement_at(s: Seq<u8>, q: int) -> Parsed {
    let (e, errs) = expression_at(s, q);
    match e {
        None => Parsed { node: None, errors: errs, next: q },
        Some(e) => Parsed {
            node: Some(StatementModel::Expression(e)),
            errors: errs,
            next: if kind_at(s, after(s, q)) == TokenType::Semicolon {
                after(s, q)
            } else {
                q
            },
        },
    }
}

/// The statement that starts with the token scanned from `q`.
pub open spec fn statement_at(s: Seq<u8>, q: int) -> Parsed {
    if kind_at(s, q) == TokenType::Let {
        let_statement_at(s, q)
    } else if kind_at(s, q) == TokenType::Return {
        return_statement_at(s, q)
    } else {
        expression_statement_at(s, q)
    }
}

pub proof fn lemma_skip_to_semicolon(s: Seq<u8>, q: int)
    requires
        0 <= q <= s.len(),
    ensures
        q <= skip_to_semicolon(s, q) <= s.len(),
    decreases s.len() - q,
{
    if kind_at(s, q) != TokenType::Semicolon && kind_at(s, q) != TokenType::Eof {
        lemma_scan_bounds(s, q);
        lemma_skip_to_semicolon(s, after(s, q));
    }
}

/// A statement never moves the parser backwards nor past the end.
pub proof fn lemma_statement_bounds(s: Seq<u8>, q: int)
    requires
        0 <= q <= s.len(),
    ensures
        q <= statement_at(s, q).next <= s.len(),
{
    lemma_scan_bounds(s, q);
    let q1 = after(s, q);
    lemma_scan_bounds(s, q1);
    let q2 = after(s, q1);
    lemma_scan_bounds(s, q2);
    lemma_skip_to_semicolon(s, q1);
    lemma_skip_to_semicolon(s, q2);
}

/// Statements and errors of the program whose first token is scanned from
/// `q`: statements are parsed one after another, moving one token on after
/// each, until the current token is the end token.
pub open spec fn program_at(s: Seq<u8>, q: int) -> (Seq<StatementModel>, Seq<ParseErrorModel>)
    decreases s.len() - q,
{
    if 0 <= q <= s.len() && kind_at(s, q) != TokenType::Eof {
        let st = statement_at(s, q);
        proof {
            lemma_scan_bounds(s, q);
            lemma_statement_bounds(s, q);
            lemma_scan_bounds(s, st.next);
        }
        let (rest, rest_errors) = program_at(s, after(s, st.next));
        let here = match st.node {
            Some(n) => seq![n],
            None => Seq::empty(),
        };
        (here + rest, st.errors + rest_errors)
    } else {
        (Seq::empty(), Seq::empty())
    }
}

/// The statements and errors of a whole source text.
pub open spec fn parse_source(s: Seq<u8>) -> (Seq<StatementModel>, Seq<ParseErrorModel>) {
    program_at(s, 0)
}

// ---------------------------------------------------------------------------
// Integer literals
// ---------------------------------------------------------------------------

pub open spec fn is_decimal_digits(t: Seq<char>) -> bool {
    forall|k: int| 0 <= k < t.len() ==> '0' <= #[trigger] t[k] <= '9'
}

/// A string of digits is worth at least as much as any of its prefixes.
pub proof fn lemma_decimal_value_prefix(t: Seq<char>, k: int)
    requires
        is_decimal_digits(t),
        0 <= k <= t.len(),
    ensures
        0 <= decimal_value(t.take(k)) <= decimal_value(t),
    decreases t.len(),
{
    if t.len() > 0 {
        let u = t.drop_last();
        assert(is_decimal_digits(u));
        if k < t.len() {
            lemma_decimal_value_prefix(u, k);
            assert(u.take(k) =~= t.take(k));
        } else {
            lemma_decimal_value_prefix(u, 0);
            assert(t.take(k) =~= t);
        }
    }
}

/// The text of an integer token is made of decimal digits.
pub proof fn lemma_int_text_digits(s: Seq<u8>, q: int)
    requires
        0 <= q <= s.len(),
        kind_at(s, q) == TokenType::Int,
    ensures
        is_decimal_digits(text_at(s, q)),
{
    let l = scan(s, q);
    lemma_scan_bounds(s, q);
    let j = l.start;
    assert(is_digit_byte(s[j]));
    lemma_digits_end(s, j);
    let t = text_at(s, q);
    assert forall|k: int| 0 <= k < t.len() implies '0' <= #[trigger] t[k] <= '9' by {
        assert(t[k] == s[j + k] as char);
        assert(is_digit_byte(s[j + k]));
    }
}

/// The value of the decimal digits `text`, or `None` when it does not fit
/// in an `i64`.
pub fn parse_decimal(text: &String) -> (r: Option<i64>)
    requires
        is_decimal_digits(text@),
    ensures
        r == (if decimal_value(text@) <= i64::MAX {
            Some(decimal_value(text@) as i64)
        } else {
            None::<i64>
        }),
{
    let ghost t = text@;
    let st = text.as_str();
    proof {
        assert(is_ascii(st));
    }
    let bytes = st.as_bytes();
    assert(bytes@.len() == t.len());
    let mut value: i64 = 0;
    let mut i: usize = 0;
    while i < bytes.len()
        invariant
            t == text@,
            0 <= i <= t.len(),
            bytes@.len() == t.len(),
            forall|k: int| 0 <= k < t.len() ==> #[trigger] bytes@[k] == t[k] as u8,
            is_decimal_digits(t),
            value as int == decimal_value(t.take(i as int)),
        decreases t.len() - i,
    {
        let ghost next = t.take(i + 1);
        proof {
            lemma_decimal_value_prefix(t, i as int);
        }
        assert(next.drop_last() =~= t.take(i as int));
        assert('0' <= t[i as int] <= '9');
        let digit = (bytes[i] - ('0' as u8)) as i64;
        assert(digit as int == t[i as int] as int - '0' as int);
        assert(next.last() == t[i as int]);
        assert(decimal_value(next) == value * 10 + digit);
        let shifted = value.checked_mul(10);
        let sum = match shifted {
            Some(v) => v.checked_add(digit),
            None => None,
        };
        match sum {
            Some(v) => {
                value = v;
            },
            None => {
                proof {
                    lemma_decimal_value_prefix(t, i + 1);
                }
                return None;
            },
        }
        i = i + 1;
    }
    assert(t.take(i as int) =~= t);
    Some(value)
}

// ---------------------------------------------------------------------------
// The parser
// ---------------------------------------------------------------------------

pub open spec fn statement_option_view(o: Option<Statement>) -> Option<StatementModel> {
    match o {
        Some(st) => Some(st@),
        None => None,
    }
}

pub open spec fn expression_option_view(o: Option<Expression>) -> Option<ExpressionModel> {
    match o {
        Some(e) => Some(e@),
        None => None,
    }
}

pub open spec fn statements_view(v: Seq<Statement>) -> Seq<StatementModel> {
    v.map_values(|st: Statement| st@)
}

pub open spec fn errors_view(v: Seq<ParseError>) -> Seq<ParseErrorModel> {
    v.map_values(|e: ParseError| e@)
}

/// A parser over the tokens of one scanner, with a window of two tokens: the
/// current one and the one after it.
pub struct Parser<'a> {
    lexer: Lexer<'a>,
    current_token: Token,
    peek_token: Token,
    errors: Vec<ParseError>,
    /// Scanner position from which the current token was scanned.
    position: Ghost<int>,
}

impl<'a> Parser<'a> {
    /// The source text, as bytes.
    pub closed spec fn source(&self) -> Seq<u8> {
        self.lexer.source()
    }

    /// Scanner position from which the current token was scanned.
    pub closed spec fn cursor(&self) -> int {
        self.position@
    }

    /// The errors recorded so far, oldest first.
    pub closed spec fn error_log(&self) -> Seq<ParseErrorModel> {
        errors_view(self.errors@)
    }

    pub closed spec fn wf(&self) -> bool {
        let s = self.lexer.source();
        let q = self.position@;
        &&& self.lexer.wf()
        &&& 0 <= q <= s.len()
        &&& denotes(self.current_token, s, scan(s, q))
        &&& denotes(self.peek_token, s, scan(s, after(s, q)))
        &&& self.lexer.cursor() == after(s, after(s, q))
    }

    /// A parser whose current and peek tokens are the next two tokens of
    /// `lexer`.
    pub fn new(lexer: Lexer<'a>) -> (p: Self)
        requires
            lexer.wf(),
        ensures
            p.wf(),
            p.source() == lexer.source(),
            p.cursor() == lexer.cursor(),
            p.error_log() == Seq::<ParseErrorModel>::empty(),
    {
        let mut lexer = lexer;
        let ghost q = lexer.cursor();
        proof {
            lexer.lemma_cursor_bounds();
        }
        let current_token = lexer.next_token();
        let peek_token = lexer.next_token();
        let p = Parser { lexer, current_token, peek_token, errors: Vec::new(), position: Ghost(q) };
        assert(errors_view(p.errors@) =~= Seq::<ParseErrorModel>::empty());
        p
    }

    /// Moves the window one token on.
    fn next_token(&mut self)
        requires
            old(self).wf(),
        ensures
            final(self).wf(),
            final(self).source() == old(self).source(),
            final(self).cursor() == after(old(self).source(), old(self).cursor()),
            final(self).errors == old(self).errors,
    {
        proof {
            lemma_scan_bounds(self.lexer.source(), self.position@);
        }
        let mut t = self.lexer.next_token();
        std::mem::swap(&mut self.peek_token, &mut t);
        self.current_token = t;
        self.position = Ghost(after(self.lexer.source(), self.position@));
    }

    fn current_token_is(&self, t: TokenType) -> (r: bool)
        ensures
            r == (self.current_token.spec_kind() == t),
    {
        self.current_token.kind() == t
    }

    fn peek_token_is(&self, t: &TokenType) -> (r: bool)
        ensures
            r == (self.peek_token.spec_kind() == *t),
    {
        self.peek_token.kind() == *t
    }

    /// Records that the peek token should have been of category `t`.
    fn peek_error(&mut self, t: TokenType)
        requires
            old(self).wf(),
        ensures
            final(self).wf(),
            final(self).source() == old(self).source(),
            final(self).cursor() == old(self).cursor(),
            final(self).error_log() == old(self).error_log() + seq![
                ParseErrorModel::UnexpectedToken {
                    expected: t,
                    actual: kind_at(old(self).source(), after(old(self).source(), old(self).cursor())),
                },
            ],
    {
        let actual = self.peek_token.kind();
        let ghost before = self.errors@;
        self.errors.push(ParseError::UnexpectedToken { expected: t, actual });
        assert(errors_view(self.errors@) =~= errors_view(before) + seq![
            ParseErrorModel::UnexpectedToken { expected: t, actual },
        ]);
    }

    /// Moves on when the peek token is of category `t`; otherwise records an
    /// error and stays.
    fn expect_peek(&mut self, t: TokenType) -> (r: bool)
        requires
            old(self).wf(),
        ensures
            final(self).wf(),
            final(self).source() == old(self).source(),
            r == (kind_at(old(self).source(), after(old(self).source(), old(self).cursor())) == t),
            r ==> final(self).cursor() == after(old(self).source(), old(self).cursor()),
            r ==> final(self).error_log() == old(self).error_log(),
            !r ==> final(self).cursor() == old(self).cursor(),
            !r ==> final(self).error_log() == old(self).error_log() + seq![
                ParseErrorModel::UnexpectedToken {
                    expected: t,
                    actual: kind_at(old(self).source(), after(old(self).source(), old(self).cursor())),
                },
            ],
    {
        if self.peek_token_is(&t) {
            self.next_token();
            true
        } else {
            self.peek_error(t);
            false
        }
    }

    /// Moves on until the current token is `;` or the end token.
    fn skip_to_semicolon(&mut self)
        requires
            old(self).wf(),
        ensures
            final(self).wf(),
            final(self).source() == old(self).source(),
            final(self).cursor() == skip_to_semicolon(old(self).source(), old(self).cursor()),
            final(self).errors == old(self).errors,
    {
        let ghost s = self.source();
        let ghost target = skip_to_semicolon(s, self.cursor());
        let ghost errors = self.errors;
        while !self.current_token_is(TokenType::Semicolon) && !self.current_token_is(
            TokenType::Eof,
        )
            invariant
                self.wf(),
                self.source() == s,
                self.errors == errors,
                skip_to_semicolon(s, self.cursor()) == target,
            decreases s.len() - self.cursor(),
        {
            proof {
                lemma_scan_bounds(s, self.cursor());
            }
            self.next_token();
        }
    }

    /// The name carried by the current token, an identifier.
    fn parse_identifier(&self) -> (r: String)
        requires
            self.wf(),
            kind_at(self.source(), self.cursor()) == TokenType::Ident,
        ensures
            r@ == text_at(self.source(), self.cursor()),
    {
        match &self.current_token {
            Token::Ident(name) => name.clone(),
            _ => String::new(),
        }
    }

    /// The value of the current token, an integer literal. A value that does
    /// not fit in an `i64` is recorded as an error and read as 0.
    fn parse_integer_literal(&mut self) -> (r: i64)
        requires
            old(self).wf(),
            kind_at(old(self).source(), old(self).cursor()) == TokenType::Int,
        ensures
            final(self).wf(),
            final(self).source() == old(self).source(),
            final(self).cursor() == old(self).cursor(),
            ExpressionModel::IntegerLiteral(r as int) == integer_literal(
                text_at(old(self).source(), old(self).cursor()),
            ).0,
            final(self).error_log() == old(self).error_log() + integer_literal(
                text_at(old(self).source(), old(self).cursor()),
            ).1,
    {
        proof {
            lemma_int_text_digits(self.source(), self.cursor());
            lemma_decimal_value_prefix(text_at(self.source(), self.cursor()), 0);
        }
        let ghost before = self.errors@;
        match &self.current_token {
            Token::Int(text) => match parse_decimal(text) {
                Some(value) => {
                    assert(errors_view(self.errors@) =~= errors_view(before) + Seq::empty());
                    value
                },
                None => {
                    self.errors.push(ParseError::FailedToParseInteger(text.clone()));
                    assert(errors_view(self.errors@) =~= errors_view(before) + seq![
                        ParseErrorModel::FailedToParseInteger(text@),
                    ]);
                    0
                },
            },
            _ => 0,
        }
    }

    /// The expression that starts at the current token, if one does.
    fn parse_expression(&mut self, precedence: Precedence) -> (r: Option<Expression>)
        requires
            old(self).wf(),
        ensures
            final(self).wf(),
            final(self).source() == old(self).source(),
            final(self).cursor() == old(self).cursor(),
            expression_option_view(r) == expression_at(old(self).source(), old(self).cursor()).0,
            final(self).error_log() == old(self).error_log() + expression_at(
                old(self).source(),
                old(self).cursor(),
            ).1,
    {
        if self.current_token_is(TokenType::Ident) {
            let name = self.parse_identifier();
            assert(self.error_log() =~= self.error_log() + Seq::empty());
            Some(Expression::Identifier(name))
        } else if self.current_token_is(TokenType::Int) {
            Some(Expression::IntegerLiteral(self.parse_integer_literal()))
        } else {
            assert(self.error_log() =~= self.error_log() + Seq::empty());
            None
        }
    }

    fn parse_let_statement(&mut self) -> (r: Option<Statement>)
        requires
            old(self).wf(),
            kind_at(old(self).source(), old(self).cursor()) == TokenType::Let,
        ensures
            final(self).wf(),
            final(self).source() == old(self).source(),
            statement_option_view(r) == let_statement_at(
                old(self).source(),
                old(self).cursor(),
            ).node,
            final(self).cursor() == let_statement_at(old(self).source(), old(self).cursor()).next,
            final(self).error_log() == old(self).error_log() + let_statement_at(
                old(self).source(),
                old(self).cursor(),
            ).errors,
    {
        let ghost log = self.error_log();
        if !self.expect_peek(TokenType::Ident) {
            return None;
        }
        let name = self.parse_identifier();
        let statement = Statement::Let { name: Expression::Identifier(name) };
        if !self.expect_peek(TokenType::Assign) {
            return None;
        }
        self.skip_to_semicolon();
        assert(self.error_log() =~= log + Seq::empty());
        Some(statement)
    }

    fn parse_return_statement(&mut self) -> (r: Option<Statement>)
        requires
            old(self).wf(),
            kind_at(old(self).source(), old(self).cursor()) == TokenType::Return,
        ensures
            final(self).wf(),
            final(self).source() == old(self).source(),
            statement_option_view(r) == return_statement_at(
                old(self).source(),
                old(self).cursor(),
            ).node,
            final(self).cursor() == return_statement_at(old(self).source(), old(self).cursor()).next,
            final(self).error_log() == old(self).error_log() + return_statement_at(
                old(self).source(),
                old(self).cursor(),
            ).errors,
    {
        let statement = Statement::Return;
        self.next_token();
        self.skip_to_semicolon();
        assert(self.error_log() =~= self.error_log() + Seq::empty());
        Some(statement)
    }

    fn parse_expression_statement(&mut self) -> (r: Option<Statement>)
        requires
            old(self).wf(),
        ensures
            final(self).wf(),
            final(self).source() == old(self).source(),
            statement_option_view(r) == expression_statement_at(
                old(self).source(),
                old(self).cursor(),
            ).node,
            final(self).cursor() == expression_statement_at(
                old(self).source(),
                old(self).cursor(),
            ).next,
            final(self).error_log() == old(self).error_log() + expression_statement_at(
                old(self).source(),
                old(self).cursor(),
            ).errors,
    {
        match self.parse_expression(Precedence::Lowest) {
            None => None,
            Some(expression) => {
                let statement = Statement::Expression(expression);
                if self.peek_token_is(&TokenType::Semicolon) {
                    self.next_token();
                }
                Some(statement)
            },
        }
    }

    fn parse_statement(&mut self) -> (r: Option<Statement>)
        requires
            old(self).wf(),
        ensures
            final(self).wf(),
            final(self).source() == old(self).source(),
            statement_option_view(r) == statement_at(old(self).source(), old(self).cursor()).node,
            final(self).cursor() == statement_at(old(self).source(), old(self).cursor()).next,
            final(self).error_log() == old(self).error_log() + statement_at(
                old(self).source(),
                old(self).cursor(),
            ).errors,
    {
        match self.current_token.kind() {
            TokenType::Let => self.parse_let_statement(),
            TokenType::Return => self.parse_return_statement(),
            _ => self.parse_expression_statement(),
        }
    }

    /// Parses statements until the current token is the end token, moving one
    /// token on after each statement, also after one that yielded no node.
    /// Errors are appended to the parser's error list.
    pub fn parse_program(&mut self) -> (program: Program)
        requires
            old(self).wf(),
        ensures
            final(self).wf(),
            final(self).source() == old(self).source(),
            program@ == program_at(old(self).source(), old(self).cursor()).0,
            final(self).error_log() == old(self).error_log() + program_at(
                old(self).source(),
                old(self).cursor(),
            ).1,
            kind_at(final(self).source(), final(self).cursor()) == TokenType::Eof,
    {
        let ghost s = self.source();
        let ghost q0 = self.cursor();
        let ghost log0 = self.error_log();
        let mut statements: Vec<Statement> = Vec::new();
        assert(statements_view(statements@) + program_at(s, q0).0 =~= program_at(s, q0).0);
        assert(self.error_log() + program_at(s, q0).1 =~= log0 + program_at(s, q0).1);
        while !self.current_token_is(TokenType::Eof)
            invariant
                self.wf(),
                self.source() == s,
                statements_view(statements@) + program_at(s, self.cursor()).0 == program_at(
                    s,
                    q0,
                ).0,
                self.error_log() + program_at(s, self.cursor()).1 == log0 + program_at(s, q0).1,
            decreases s.len() - self.cursor(),
        {
            let ghost q = self.cursor();
            let ghost log = self.error_log();
            let ghost done = statements_view(statements@);
            proof {
                lemma_scan_bounds(s, q);
                lemma_statement_bounds(s, q);
                lemma_scan_bounds(s, statement_at(s, q).next);
            }
            match self.parse_statement() {
                Some(statement) => {
                    statements.push(statement);
                },
                None => {},
            }
            self.next_token();
            proof {
                let st = statement_at(s, q);
                let rest = program_at(s, self.cursor());
                let here = match st.node {
                    Some(n) => seq![n],
                    None => Seq::<StatementModel>::empty(),
                };
                assert(statements_view(statements@) =~= done + here);
                assert(done + here + rest.0 =~= done + (here + rest.0));
                assert(log + st.errors + rest.1 =~= log + (st.errors + rest.1));
            }
        }
        assert(statements_view(statements@) =~= program_at(s, q0).0);
        assert(self.error_log() =~= log0 + program_at(s, q0).1);
        Program { statements }
    }

    /// The errors recorded so far, oldest first.
    pub fn errors(&self) -> (r: &Vec<ParseError>)
        ensures
            errors_view(r@) == self.error_log(),
    {
        &self.errors
    }
}

/// A `let` that is not followed by an identifier and `=` yields no statement
/// and records exactly one unexpected-token error, which comes first among the
/// errors of the program parsed from there; parsing then goes on with the next
/// token.
pub proof fn lemma_malformed_let_reports_error(s: Seq<u8>, q: int)
    requires
        0 <= q <= s.len(),
        kind_at(s, q) == TokenType::Let,
        kind_at(s, after(s, q)) != TokenType::Ident || kind_at(s, after(s, after(s, q)))
            != TokenType::Assign,
    ensures
        statement_at(s, q).node is None,
        statement_at(s, q).errors.len() == 1,
        statement_at(s, q).errors[0] is UnexpectedToken,
        program_at(s, q).1.len() >= 1,
        program_at(s, q).1[0] == statement_at(s, q).errors[0],
{
}

/// Parsing depends on the source text alone: two parsers, each built over a
/// fresh scanner of the same text and run to the end, yield structurally equal
/// programs and equal error lists.
pub proof fn lemma_parse_deterministic(
    a: &str,
    b: &str,
    first: Program,
    first_errors: Seq<ParseErrorModel>,
    second: Program,
    second_errors: Seq<ParseErrorModel>,
)
    requires
        a@ == b@,
        first@ == parse_source(a.spec_bytes()).0,
        first_errors == parse_source(a.spec_bytes()).1,
        second@ == parse_source(b.spec_bytes()).0,
        second_errors == parse_source(b.spec_bytes()).1,
    ensures
        first@ == second@,
        first_errors == second_errors,
{
}

} // verus!
