use vstd::prelude::*;
use vstd::string::StringExecFns;

verus! {

/// The two structural categories of tree nodes.
pub enum Node {
    Statement,
    Expression,
}

/// An expression: a name or a 64-bit signed integer literal.
#[derive(Clone, Debug, PartialEq, Eq)]
pub enum Expression {
    Identifier(String),
    IntegerLiteral(i64),
}

/// A statement. `Let` records the bound name; neither `Let` nor `Return`
/// keeps the expression that follows it yet.
#[derive(Clone, Debug, PartialEq, Eq)]
pub enum Statement {
    Let { name: Expression },
    Return,
    Expression(Expression),
}

/// A parsed source: its statements in source order.
#[derive(Clone, Debug, PartialEq, Eq)]
pub struct Program {
    pub statements: Vec<Statement>,
}

/// Binding strength of operators, weakest first. Expression parsing starts
/// at `Lowest`.
#[derive(Clone, Copy, Debug, PartialEq, Eq, PartialOrd, Ord, Structural)]
pub enum Precedence {
    Lowest,
    Equals,
    LessGreater,
    Sum,
    Product,
    Prefix,
    Call,
}

/// Mathematical value of an `Expression`.
pub enum ExpressionModel {
    Identifier(Seq<char>),
    IntegerLiteral(int),
}

/// Mathematical value of a `Statement`.
pub enum StatementModel {
    Let { name: ExpressionModel },
    Return,
    Expression(ExpressionModel),
}

impl View for Expression {
    type V = ExpressionModel;

    open spec fn view(&self) -> ExpressionModel {
        match self {
            Expression::Identifier(name) => ExpressionModel::Identifier(name@),
            Expression::IntegerLiteral(value) => ExpressionModel::IntegerLiteral(*value as int),
        }
    }
}

impl View for Statement {
    type V = StatementModel;

    open spec fn view(&self) -> StatementModel {
        match self {
            Statement::Let { name } => StatementModel::Let { name: name@ },
            Statement::Return => StatementModel::Return,
            Statement::Expression(e) => StatementModel::Expression(e@),
        }
    }
}

impl View for Program {
    type V = Seq<StatementModel>;

    open spec fn view(&self) -> Seq<StatementModel> {
        self.statements@.map_values(|st: Statement| st@)
    }
}

// ---------------------------------------------------------------------------
// Rendering as text
// ---------------------------------------------------------------------------

/// The decimal digit for `d < 10`.
pub open spec fn digit_char(d: int) -> char {
    ('0' as int + d) as char
}

/// The decimal digits of `n`, most significant first, without leading zeros.
pub open spec fn decimal_text(n: nat) -> Seq<char>
    decreases n,
{
    if n < 10 {
        seq![digit_char(n as int)]
    } else {
        decimal_text(n / 10).push(digit_char(n as int % 10))
    }
}

/// An integer in decimal, with a leading `-` when it is negative.
pub open spec fn integer_text(v: int) -> Seq<char> {
    if v < 0 {
        seq!['-'] + decimal_text((-v) as nat)
    } else {
        decimal_text(v as nat)
    }
}

pub open spec fn expression_text(e: ExpressionModel) -> Seq<char> {
    match e {
        ExpressionModel::Identifier(name) => name,
        ExpressionModel::IntegerLiteral(v) => integer_text(v),
    }
}

/// A `let` shows its name only and a `return` a placeholder, as neither keeps
/// its expression yet.
pub open spec fn statement_text(st: StatementModel) -> Seq<char> {
    match st {
        StatementModel::Let { name } => "let "@ + expression_text(name) + " = "@,
        StatementModel::Return => "return (TODO: 式);"@,
        StatementModel::Expression(e) => expression_text(e),
    }
}

/// Each statement on a line of its own.
pub open spec fn program_text(sts: Seq<StatementModel>) -> Seq<char>
    decreases sts.len(),
{
    if sts.len() == 0 {
        Seq::empty()
    } else {
        program_text(sts.drop_last()) + statement_text(sts.last()) + "\n"@
    }
}

fn digit_str(d: u64) -> (r: &'static str)
    requires
        d < 10,
    ensures
        r@ == seq![digit_char(d as int)],
{
    if d == 0 {
        proof { reveal_strlit("0"); }
        assert("0"@ =~= seq![digit_char(0)]);
        "0"
    } else if d == 1 {
        proof { reveal_strlit("1"); }
        assert("1"@ =~= seq![digit_char(1)]);
        "1"
    } else if d == 2 {
        proof { reveal_strlit("2"); }
        assert("2"@ =~= seq![digit_char(2)]);
        "2"
    } else if d == 3 {
        proof { reveal_strlit("3"); }
        assert("3"@ =~= seq![digit_char(3)]);
        "3"
    } else if d == 4 {
        proof { reveal_strlit("4"); }
        assert("4"@ =~= seq![digit_char(4)]);
        "4"
    } else if d == 5 {
        proof { reveal_strlit("5"); }
        assert("5"@ =~= seq![digit_char(5)]);
        "5"
    } else if d == 6 {
        proof { reveal_strlit("6"); }
        assert("6"@ =~= seq![digit_char(6)]);
        "6"
    } else if d == 7 {
        proof { reveal_strlit("7"); }
        assert("7"@ =~= seq![digit_char(7)]);
        "7"
    } else if d == 8 {
        proof { reveal_strlit("8"); }
        assert("8"@ =~= seq![digit_char(8)]);
        "8"
    } else {
        proof { reveal_strlit("9"); }
        assert("9"@ =~= seq![digit_char(9)]);
        "9"
    }
}

/// Appends the decimal digits of `n` to `out`.
fn append_decimal(out: &mut String, n: u64)
    ensures
        final(out)@ == old(out)@ + decimal_text(n as nat),
    decreases n,
{
    if n >= 10 {
        append_decimal(out, n / 10);
    }
    out.append(digit_str(n % 10));
    assert(final(out)@ =~= old(out)@ + decimal_text(n as nat)) by {
        if n >= 10 {
            assert(old(out)@ + decimal_text(n as nat) =~= old(out)@ + decimal_text((n / 10) as nat)
                + seq![digit_char(n as int % 10)]);
        }
    }
}

impl Expression {
    /// The expression as source text.
    pub fn to_string(&self) -> (r: String)
        ensures
            r@ == expression_text(self@),
    {
        match self {
            Expression::Identifier(name) => name.clone(),
            Expression::IntegerLiteral(v) => {
                let mut out = String::new();
                if *v < 0 {
                    proof {
                        reveal_strlit("-");
                    }
                    out.append("-");
                    assert(out@ =~= seq!['-']);
                    let magnitude = ((-(*v + 1)) as u64) + 1;
                    append_decimal(&mut out, magnitude);
                } else {
                    append_decimal(&mut out, *v as u64);
                }
                out
            },
        }
    }
}

impl Statement {
    /// The statement as source text.
    pub fn to_string(&self) -> (r: String)
        ensures
            r@ == statement_text(self@),
    {
        match self {
            Statement::Let { name } => {
                let mut out = String::new();
                out.append("let ");
                out.append(name.to_string().as_str());
                out.append(" = ");
                out
            },
            Statement::Return => {
                let mut out = String::new();
                out.append("return (TODO: 式);");
                out
            },
            Statement::Expression(e) => e.to_string(),
        }
    }
}

impl Program {
    /// The program as source text, one statement per line.
    pub fn to_string(&self) -> (r: String)
        ensures
            r@ == program_text(self@),
    {
        let mut out = String::new();
        let mut i: usize = 0;
        while i < self.statements.len()
            invariant
                0 <= i <= self.statements@.len(),
                out@ == program_text(self@.take(i as int)),
            decreases self.statements@.len() - i,
        {
            out.append(self.statements[i].to_string().as_str());
            out.append("\n");
            assert(self@.take(i + 1).drop_last() =~= self@.take(i as int));
            i = i + 1;
        }
        assert(self@.take(i as int) =~= self@);
        out
    }
}

} // verus!
