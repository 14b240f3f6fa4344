//! What can go wrong while reading or evaluating.
use vstd::prelude::*;
use crate::ast::{Ast, Val};
use crate::parser::{ParseErr, ParserError, Token, TokenV};
use crate::printer::{print_into, show};
use crate::text::{decimal, i64_text, usize_text};

verus! {

/// Why reading or evaluating a form stopped.
#[derive(Debug)]
pub enum ReplError {
    ParserError(ParserError),
    /// A file could not be read; the host's message.
    IoError(String),
    SymbolUndefined(String),
    /// The empty list was evaluated.
    EmptyCall,
    /// The head of a call is neither a closure nor a builtin.
    NotCallable(Ast),
    /// A special form without the shape it needs, by the form's name.
    MalformedForm(String),
    /// Function name, number of arguments it takes, number it was given.
    ArityMismatch(String, usize, usize),
    IntegerOverflow(String),
    DivisionByZero(String),
    /// An environment or atom index that names nothing in the heap.
    BadReference,
    /// The evaluation step budget ran out.
    OutOfFuel,
    /// `slurp` wants a file whose contents the host has not supplied yet.
    FileNeeded(String),
}

/// The mathematical form of a `ReplError`.
pub enum EvalErr {
    Parse(ParseErr),
    Io(Seq<char>),
    SymbolUndefined(Seq<char>),
    EmptyCall,
    NotCallable(Val),
    MalformedForm(Seq<char>),
    ArityMismatch(Seq<char>, usize, usize),
    IntegerOverflow(Seq<char>),
    DivisionByZero(Seq<char>),
    BadReference,
    OutOfFuel,
    FileNeeded(Seq<char>),
}

impl View for ReplError {
    type V = EvalErr;

    open spec fn view(&self) -> EvalErr {
        match self {
            ReplError::ParserError(e) => EvalErr::Parse(e@),
            ReplError::IoError(m) => EvalErr::Io(m@),
            ReplError::SymbolUndefined(s) => EvalErr::SymbolUndefined(s@),
            ReplError::EmptyCall => EvalErr::EmptyCall,
            ReplError::NotCallable(a) => EvalErr::NotCallable(a@),
            ReplError::MalformedForm(s) => EvalErr::MalformedForm(s@),
            ReplError::ArityMismatch(s, e, g) => EvalErr::ArityMismatch(s@, *e, *g),
            ReplError::IntegerOverflow(s) => EvalErr::IntegerOverflow(s@),
            ReplError::DivisionByZero(s) => EvalErr::DivisionByZero(s@),
            ReplError::BadReference => EvalErr::BadReference,
            ReplError::OutOfFuel => EvalErr::OutOfFuel,
            ReplError::FileNeeded(s) => EvalErr::FileNeeded(s@),
        }
    }
}

/// The mathematical form of an evaluation result.
pub open spec fn outcome(r: Result<Ast, ReplError>) -> Result<Val, EvalErr> {
    match r {
        Ok(a) => Ok(a@),
        Err(e) => Err(e@),
    }
}

pub open spec fn token_text(t: TokenV) -> Seq<char> {
    match t {
        TokenV::LeftParen => "LeftParen"@,
        TokenV::RightParen => "RightParen"@,
        TokenV::Symbol(s) => "Symbol("@ + s + ")"@,
        TokenV::Integer(n) => "Integer("@ + decimal(n as int) + ")"@,
        TokenV::Str(s) => "String("@ + s + ")"@,
    }
}

/// The text a reader or type error is reported with.
pub open spec fn parser_message(e: ParseErr) -> Seq<char> {
    match e {
        ParseErr::ExpectedGot(pos, exp, got) => "Error on position "@ + decimal(pos as int)
            + ": Expected '"@ + token_text(exp) + "', but got '"@ + token_text(got) + "'"@,
        ParseErr::ExpectedGotEof(exp) => "Error: Expected '"@ + token_text(exp) + "', but got EOF"@,
        ParseErr::ExpectedAnyGotEof => "Error: Expected any input but got EOF"@,
        ParseErr::Unexpected(pos, t) => "Error on position "@ + decimal(pos as int) + ": Unexpected '"@
            + token_text(t) + "'"@,
        ParseErr::TypeMismatch(f, i, exp, got) => "Type mismatch: Expected "@ + exp
            + " at argument position "@ + decimal(i as int) + " of "@ + f + " but got "@ + show(got, false),
        ParseErr::ExpectedSymbol => "Expected symbol"@,
    }
}

/// The text an error is reported with.
pub open spec fn error_message(e: EvalErr) -> Seq<char> {
    match e {
        EvalErr::Parse(p) => parser_message(p),
        EvalErr::Io(m) => "I/O error: "@ + m,
        EvalErr::SymbolUndefined(s) => "Symbol undefined: "@ + s,
        EvalErr::EmptyCall => "The empty list cannot be called"@,
        EvalErr::NotCallable(v) => "Not a function: "@ + show(v, false),
        EvalErr::MalformedForm(f) => "Malformed "@ + f + " form"@,
        EvalErr::ArityMismatch(f, n, g) => f + " takes "@ + decimal(n as int) + " argument(s) but got "@
            + decimal(g as int),
        EvalErr::IntegerOverflow(f) => "Integer overflow in "@ + f,
        EvalErr::DivisionByZero(f) => "Division by zero in "@ + f,
        EvalErr::BadReference => "Reference to a missing frame or atom"@,
        EvalErr::OutOfFuel => "Evaluation step budget exhausted"@,
        EvalErr::FileNeeded(p) => "File not supplied: "@ + p,
    }
}

fn put(out: &mut String, s: &str)
    ensures
        final(out)@ == old(out)@ + s@,
{
    out.append(s);
}

impl Token {
    /// Appends the text of this token.
    pub fn describe_into(&self, out: &mut String)
        ensures
            final(out)@ == old(out)@ + token_text(self@),
    {
        let ghost start = out@;
        match self {
            Token::LeftParen => put(out, "LeftParen"),
            Token::RightParen => put(out, "RightParen"),
            Token::Symbol(s) => {
                put(out, "Symbol(");
                put(out, s.as_str());
                put(out, ")");
            },
            Token::Integer(n) => {
                put(out, "Integer(");
                let t = i64_text(*n);
                put(out, t.as_str());
                put(out, ")");
            },
            Token::String(s) => {
                put(out, "String(");
                put(out, s.as_str());
                put(out, ")");
            },
        }
        assert(out@ =~= start + token_text(self@));
    }
}

impl ParserError {
    /// The text this error is reported with.
    pub fn message(&self) -> (r: String)
        ensures
            r@ == parser_message(self@),
    {
        let mut out = String::new();
        match self {
            ParserError::ExpectedGot(pos, expected, actual) => {
                put(&mut out, "Error on position ");
                let t = usize_text(*pos);
                put(&mut out, t.as_str());
                put(&mut out, ": Expected '");
                expected.describe_into(&mut out);
                put(&mut out, "', but got '");
                actual.describe_into(&mut out);
                put(&mut out, "'");
            },
            ParserError::ExpectedGotEof(expected) => {
                put(&mut out, "Error: Expected '");
                expected.describe_into(&mut out);
                put(&mut out, "', but got EOF");
            },
            ParserError::ExpectedAnyGotEof => put(&mut out, "Error: Expected any input but got EOF"),
            ParserError::Unexpected(pos, t) => {
                put(&mut out, "Error on position ");
                let p = usize_text(*pos);
                put(&mut out, p.as_str());
                put(&mut out, ": Unexpected '");
                t.describe_into(&mut out);
                put(&mut out, "'");
            },
            ParserError::TypeMismatch(fn_name, index, expected, got) => {
                put(&mut out, "Type mismatch: Expected ");
                put(&mut out, expected.as_str());
                put(&mut out, " at argument position ");
                let i = usize_text(*index);
                put(&mut out, i.as_str());
                put(&mut out, " of ");
                put(&mut out, fn_name.as_str());
                put(&mut out, " but got ");
                print_into(got, false, &mut out);
            },
            ParserError::ExpectedSymbol => put(&mut out, "Expected symbol"),
        }
        assert(out@ =~= parser_message(self@));
        out
    }
}

impl ReplError {
    /// The text this error is reported with.
    pub fn message(&self) -> (r: String)
        ensures
            r@ == error_message(self@),
    {
        let mut out = String::new();
        match self {
            ReplError::ParserError(p) => return p.message(),
            ReplError::IoError(m) => {
                put(&mut out, "I/O error: ");
                put(&mut out, m.as_str());
            },
            ReplError::SymbolUndefined(s) => {
                put(&mut out, "Symbol undefined: ");
                put(&mut out, s.as_str());
            },
            ReplError::EmptyCall => put(&mut out, "The empty list cannot be called"),
            ReplError::NotCallable(v) => {
                put(&mut out, "Not a function: ");
                print_into(v, false, &mut out);
            },
            ReplError::MalformedForm(f) => {
                put(&mut out, "Malformed ");
                put(&mut out, f.as_str());
                put(&mut out, " form");
            },
            ReplError::ArityMismatch(f, n, g) => {
                put(&mut out, f.as_str());
                put(&mut out, " takes ");
                let a = usize_text(*n);
                put(&mut out, a.as_str());
                put(&mut out, " argument(s) but got ");
                let b = usize_text(*g);
                put(&mut out, b.as_str());
            },
            ReplError::IntegerOverflow(f) => {
                put(&mut out, "Integer overflow in ");
                put(&mut out, f.as_str());
            },
            ReplError::DivisionByZero(f) => {
                put(&mut out, "Division by zero in ");
                put(&mut out, f.as_str());
            },
            ReplError::BadReference => put(&mut out, "Reference to a missing frame or atom"),
            ReplError::OutOfFuel => put(&mut out, "Evaluation step budget exhausted"),
            ReplError::FileNeeded(p) => {
                put(&mut out, "File not supplied: ");
                put(&mut out, p.as_str());
            },
        }
        assert(out@ =~= error_message(self@));
        out
    }
}

} // verus!
