//! Errors of the interpreter, their model, and their messages.

use vstd::prelude::*;
use crate::value::{SValue, Value, show, write_value};
use crate::number::nat_text;
use crate::number::write_nat;
use crate::text::{push_str, push_chars, chars_of, string_of};

verus! {

/// The model of an error.
pub enum SError {
    UnexpectedEndOfString,
    UnterminatedString,
    ExpectedBoolean,
    InvalidNumber(Seq<char>),
    UnexpectedWhitespace,
    UnexpectedEnd,
    MissingRParen,
    UnexpectedRParen,
    UndefinedVariable(Seq<char>),
    SetUndefined(Seq<char>),
    QuoteArity,
    IfArity,
    DefMissingTarget,
    DefRequiresValue,
    DefEmptyName,
    DefNameNotSymbol,
    DefParamNotSymbol,
    DefBadTarget,
    LambdaArity,
    LambdaParamNotSymbol,
    LambdaParamsNotList,
    SetArity,
    SetNotSymbol,
    CondInvalidClause,
    LetArity,
    LetBindingsNotList,
    LetNameNotSymbol,
    LetInvalidBinding,
    ArgCount(nat, nat),
    NotAFunction(SValue),
    DepthExceeded,
    DivisionByZero,
    DivisionArity,
    ExpectedNumber,
    ComparisonArity,
    ComparisonNumbers,
    CarArity,
    CarNotList,
    CdrArity,
    CdrNotList,
    ConsArity,
    EqArity,
    EqualArity,
    NotArity,
    DisplayArity,
    LengthArity,
    LengthNotList,
    AppendNotList,
    MapArity,
    MapNotList,
    ApplyArity,
    ApplyNotList,
    UnknownBuiltin(Seq<char>),
}

/// An error of the lexer, the reader or the evaluator.
#[derive(Debug, PartialEq)]
pub enum Error {
    /// A backslash ends the input inside a string literal.
    UnexpectedEndOfString,
    /// The input ends inside a string literal.
    UnterminatedString,
    /// `#` is not followed by `t` or `f`.
    ExpectedBoolean,
    /// A numeral is not of the form `-?digits(.digits)?`.
    InvalidNumber(String),
    /// A token starts with a whitespace character other than space, tab, newline or carriage return.
    UnexpectedWhitespace,
    /// The reader needs a datum and no token is left.
    UnexpectedEnd,
    /// A list is not closed.
    MissingRParen,
    /// A datum starts with `)`.
    UnexpectedRParen,
    /// A symbol is bound in no frame of the chain.
    UndefinedVariable(String),
    /// `set!` names a variable bound in no frame of the chain.
    SetUndefined(String),
    /// `quote` without exactly one operand.
    QuoteArity,
    /// `if` with fewer than two operands.
    IfArity,
    /// `def` with no operand.
    DefMissingTarget,
    /// `def` of a variable without exactly one value expression.
    DefRequiresValue,
    /// `def` of a function with an empty header.
    DefEmptyName,
    /// A function header whose name is not a symbol.
    DefNameNotSymbol,
    /// A function header with a parameter that is not a symbol.
    DefParamNotSymbol,
    /// `def` of something that is neither a symbol nor a list.
    DefBadTarget,
    /// `lambda` without parameters and a body.
    LambdaArity,
    /// A `lambda` parameter that is not a symbol.
    LambdaParamNotSymbol,
    /// `lambda` parameters that are not a list.
    LambdaParamsNotList,
    /// `set!` without exactly two operands.
    SetArity,
    /// `set!` of something that is not a symbol.
    SetNotSymbol,
    /// A `cond` clause that is not a list of at least two elements.
    CondInvalidClause,
    /// `let` without bindings and a body.
    LetArity,
    /// `let` bindings that are not a list.
    LetBindingsNotList,
    /// A `let` binding whose name is not a symbol.
    LetNameNotSymbol,
    /// A `let` binding that is not a two-element list.
    LetInvalidBinding,
    /// A closure applied to the wrong number of arguments (expected, got).
    ArgCount(usize, usize),
    /// Application of a value that is neither a closure nor a builtin.
    NotAFunction(Value),
    /// Evaluation nests deeper than the depth budget.
    DepthExceeded,
    /// `/` with a zero divisor.
    DivisionByZero,
    /// `/` with no arguments.
    DivisionArity,
    /// An arithmetic operand that is not a number.
    ExpectedNumber,
    /// A comparison without exactly two operands.
    ComparisonArity,
    /// A comparison of operands that are not both numbers.
    ComparisonNumbers,
    /// `car` without exactly one argument.
    CarArity,
    /// `car` of something that is not a non-empty list.
    CarNotList,
    /// `cdr` without exactly one argument.
    CdrArity,
    /// `cdr` of something that is not a non-empty list.
    CdrNotList,
    /// `cons` without exactly two arguments.
    ConsArity,
    /// `eq?` without exactly two arguments.
    EqArity,
    /// `equal?` without exactly two arguments.
    EqualArity,
    /// `not` without exactly one argument.
    NotArity,
    /// `display` without exactly one argument.
    DisplayArity,
    /// `length` without exactly one argument.
    LengthArity,
    /// `length` of something that is not a list.
    LengthNotList,
    /// `append` of something that is not a list.
    AppendNotList,
    /// `map` without exactly two arguments.
    MapArity,
    /// `map` over something that is not a list.
    MapNotList,
    /// `apply` without exactly two arguments.
    ApplyArity,
    /// `apply` with arguments that are not a list.
    ApplyNotList,
    /// A builtin with a name the interpreter does not know.
    UnknownBuiltin(String),
}

impl View for Error {
    type V = SError;

    open spec fn view(&self) -> SError {
        match self {
            Error::UnexpectedEndOfString => SError::UnexpectedEndOfString,
            Error::UnterminatedString => SError::UnterminatedString,
            Error::ExpectedBoolean => SError::ExpectedBoolean,
            Error::InvalidNumber(s) => SError::InvalidNumber(s@),
            Error::UnexpectedWhitespace => SError::UnexpectedWhitespace,
            Error::UnexpectedEnd => SError::UnexpectedEnd,
            Error::MissingRParen => SError::MissingRParen,
            Error::UnexpectedRParen => SError::UnexpectedRParen,
            Error::UndefinedVariable(s) => SError::UndefinedVariable(s@),
            Error::SetUndefined(s) => SError::SetUndefined(s@),
            Error::QuoteArity => SError::QuoteArity,
            Error::IfArity => SError::IfArity,
            Error::DefMissingTarget => SError::DefMissingTarget,
            Error::DefRequiresValue => SError::DefRequiresValue,
            Error::DefEmptyName => SError::DefEmptyName,
            Error::DefNameNotSymbol => SError::DefNameNotSymbol,
            Error::DefParamNotSymbol => SError::DefParamNotSymbol,
            Error::DefBadTarget => SError::DefBadTarget,
            Error::LambdaArity => SError::LambdaArity,
            Error::LambdaParamNotSymbol => SError::LambdaParamNotSymbol,
            Error::LambdaParamsNotList => SError::LambdaParamsNotList,
            Error::SetArity => SError::SetArity,
            Error::SetNotSymbol => SError::SetNotSymbol,
            Error::CondInvalidClause => SError::CondInvalidClause,
            Error::LetArity => SError::LetArity,
            Error::LetBindingsNotList => SError::LetBindingsNotList,
            Error::LetNameNotSymbol => SError::LetNameNotSymbol,
            Error::LetInvalidBinding => SError::LetInvalidBinding,
            Error::ArgCount(a, b) => SError::ArgCount(*a as nat, *b as nat),
            Error::NotAFunction(v) => SError::NotAFunction(v@),
            Error::DepthExceeded => SError::DepthExceeded,
            Error::DivisionByZero => SError::DivisionByZero,
            Error::DivisionArity => SError::DivisionArity,
            Error::ExpectedNumber => SError::ExpectedNumber,
            Error::ComparisonArity => SError::ComparisonArity,
            Error::ComparisonNumbers => SError::ComparisonNumbers,
            Error::CarArity => SError::CarArity,
            Error::CarNotList => SError::CarNotList,
            Error::CdrArity => SError::CdrArity,
            Error::CdrNotList => SError::CdrNotList,
            Error::ConsArity => SError::ConsArity,
            Error::EqArity => SError::EqArity,
            Error::EqualArity => SError::EqualArity,
            Error::NotArity => SError::NotArity,
            Error::DisplayArity => SError::DisplayArity,
            Error::LengthArity => SError::LengthArity,
            Error::LengthNotList => SError::LengthNotList,
            Error::AppendNotList => SError::AppendNotList,
            Error::MapArity => SError::MapArity,
            Error::MapNotList => SError::MapNotList,
            Error::ApplyArity => SError::ApplyArity,
            Error::ApplyNotList => SError::ApplyNotList,
            Error::UnknownBuiltin(s) => SError::UnknownBuiltin(s@),
        }
    }
}

/// The message of an error, as the interpreter reports it.
pub open spec fn error_text(e: SError) -> Seq<char> {
    match e {
        SError::UnexpectedEndOfString => "Unexpected end of string"@,
        SError::UnterminatedString => "Unterminated string"@,
        SError::ExpectedBoolean => "Expected #t or #f"@,
        SError::InvalidNumber(s) => "Invalid number: "@ + s,
        SError::UnexpectedWhitespace => "Unexpected whitespace character"@,
        SError::UnexpectedEnd => "Unexpected end of input"@,
        SError::MissingRParen => "Unexpected end of input: missing ')'"@,
        SError::UnexpectedRParen => "Unexpected ')'"@,
        SError::UndefinedVariable(s) => "Undefined variable: "@ + s,
        SError::SetUndefined(s) => "set!: undefined variable: "@ + s,
        SError::QuoteArity => "quote requires exactly 1 argument"@,
        SError::IfArity => "if requires at least 2 arguments"@,
        SError::DefMissingTarget => "def requires a name"@,
        SError::DefRequiresValue => "def requires a value"@,
        SError::DefEmptyName => "def: empty function name"@,
        SError::DefNameNotSymbol => "def: function name must be a symbol"@,
        SError::DefParamNotSymbol => "def: parameter must be a symbol"@,
        SError::DefBadTarget => "def: first argument must be a symbol or list"@,
        SError::LambdaArity => "lambda requires parameters and body"@,
        SError::LambdaParamNotSymbol => "lambda: parameter must be a symbol"@,
        SError::LambdaParamsNotList => "lambda: parameters must be a list"@,
        SError::SetArity => "set! requires 2 arguments"@,
        SError::SetNotSymbol => "set!: first argument must be a symbol"@,
        SError::CondInvalidClause => "cond: invalid clause"@,
        SError::LetArity => "let requires bindings and body"@,
        SError::LetBindingsNotList => "let: bindings must be a list"@,
        SError::LetNameNotSymbol => "let: binding name must be a symbol"@,
        SError::LetInvalidBinding => "let: invalid binding"@,
        SError::ArgCount(a, b) => "Expected "@ + nat_text(a) + " arguments, got "@ + nat_text(b),
        SError::NotAFunction(v) => "Not a function: "@ + show(v),
        SError::DepthExceeded => "Recursion depth exceeded"@,
        SError::DivisionByZero => "Division by zero"@,
        SError::DivisionArity => "/ requires at least 1 argument"@,
        SError::ExpectedNumber => "Expected a number"@,
        SError::ComparisonArity => "Comparison requires exactly 2 arguments"@,
        SError::ComparisonNumbers => "Comparison requires numbers"@,
        SError::CarArity => "car requires exactly 1 argument"@,
        SError::CarNotList => "car: argument must be a non-empty list"@,
        SError::CdrArity => "cdr requires exactly 1 argument"@,
        SError::CdrNotList => "cdr: argument must be a non-empty list"@,
        SError::ConsArity => "cons requires exactly 2 arguments"@,
        SError::EqArity => "eq? requires exactly 2 arguments"@,
        SError::EqualArity => "equal? requires exactly 2 arguments"@,
        SError::NotArity => "not requires exactly 1 argument"@,
        SError::DisplayArity => "display requires exactly 1 argument"@,
        SError::LengthArity => "length requires exactly 1 argument"@,
        SError::LengthNotList => "length: argument must be a list"@,
        SError::AppendNotList => "append: arguments must be lists"@,
        SError::MapArity => "map requires exactly 2 arguments"@,
        SError::MapNotList => "map: second argument must be a list"@,
        SError::ApplyArity => "apply requires exactly 2 arguments"@,
        SError::ApplyNotList => "apply: second argument must be a list"@,
        SError::UnknownBuiltin(s) => "Unknown builtin function: "@ + s,
    }
}

impl Error {
    /// The message of this error.
    pub fn message(&self) -> (r: String)
        ensures
            r@ == error_text(self@),
    {
        let mut out: Vec<char> = Vec::new();
        match self {
            Error::UnexpectedEndOfString => push_str(&mut out, "Unexpected end of string"),
            Error::UnterminatedString => push_str(&mut out, "Unterminated string"),
            Error::ExpectedBoolean => push_str(&mut out, "Expected #t or #f"),
            Error::InvalidNumber(s) => {
                push_str(&mut out, "Invalid number: ");
                let cs = chars_of(s.as_str());
                push_chars(&mut out, cs.as_slice());
            },
            Error::UnexpectedWhitespace => push_str(&mut out, "Unexpected whitespace character"),
            Error::UnexpectedEnd => push_str(&mut out, "Unexpected end of input"),
            Error::MissingRParen => push_str(&mut out, "Unexpected end of input: missing ')'"),
            Error::UnexpectedRParen => push_str(&mut out, "Unexpected ')'"),
            Error::UndefinedVariable(s) => {
                push_str(&mut out, "Undefined variable: ");
                let cs = chars_of(s.as_str());
                push_chars(&mut out, cs.as_slice());
            },
            Error::SetUndefined(s) => {
                push_str(&mut out, "set!: undefined variable: ");
                let cs = chars_of(s.as_str());
                push_chars(&mut out, cs.as_slice());
            },
            Error::QuoteArity => push_str(&mut out, "quote requires exactly 1 argument"),
            Error::IfArity => push_str(&mut out, "if requires at least 2 arguments"),
            Error::DefMissingTarget => push_str(&mut out, "def requires a name"),
            Error::DefRequiresValue => push_str(&mut out, "def requires a value"),
            Error::DefEmptyName => push_str(&mut out, "def: empty function name"),
            Error::DefNameNotSymbol => push_str(&mut out, "def: function name must be a symbol"),
            Error::DefParamNotSymbol => push_str(&mut out, "def: parameter must be a symbol"),
            Error::DefBadTarget => push_str(&mut out, "def: first argument must be a symbol or list"),
            Error::LambdaArity => push_str(&mut out, "lambda requires parameters and body"),
            Error::LambdaParamNotSymbol => push_str(&mut out, "lambda: parameter must be a symbol"),
            Error::LambdaParamsNotList => push_str(&mut out, "lambda: parameters must be a list"),
            Error::SetArity => push_str(&mut out, "set! requires 2 arguments"),
            Error::SetNotSymbol => push_str(&mut out, "set!: first argument must be a symbol"),
            Error::CondInvalidClause => push_str(&mut out, "cond: invalid clause"),
            Error::LetArity => push_str(&mut out, "let requires bindings and body"),
            Error::LetBindingsNotList => push_str(&mut out, "let: bindings must be a list"),
            Error::LetNameNotSymbol => push_str(&mut out, "let: binding name must be a symbol"),
            Error::LetInvalidBinding => push_str(&mut out, "let: invalid binding"),
            Error::ArgCount(a, b) => {
                push_str(&mut out, "Expected ");
                write_nat(*a as u64, &mut out);
                push_str(&mut out, " arguments, got ");
                write_nat(*b as u64, &mut out);
            },
            Error::NotAFunction(v) => {
                push_str(&mut out, "Not a function: ");
                write_value(v, &mut out);
            },
            Error::DepthExceeded => push_str(&mut out, "Recursion depth exceeded"),
            Error::DivisionByZero => push_str(&mut out, "Division by zero"),
            Error::DivisionArity => push_str(&mut out, "/ requires at least 1 argument"),
            Error::ExpectedNumber => push_str(&mut out, "Expected a number"),
            Error::ComparisonArity => push_str(&mut out, "Comparison requires exactly 2 arguments"),
            Error::ComparisonNumbers => push_str(&mut out, "Comparison requires numbers"),
            Error::CarArity => push_str(&mut out, "car requires exactly 1 argument"),
            Error::CarNotList => push_str(&mut out, "car: argument must be a non-empty list"),
            Error::CdrArity => push_str(&mut out, "cdr requires exactly 1 argument"),
            Error::CdrNotList => push_str(&mut out, "cdr: argument must be a non-empty list"),
            Error::ConsArity => push_str(&mut out, "cons requires exactly 2 arguments"),
            Error::EqArity => push_str(&mut out, "eq? requires exactly 2 arguments"),
            Error::EqualArity => push_str(&mut out, "equal? requires exactly 2 arguments"),
            Error::NotArity => push_str(&mut out, "not requires exactly 1 argument"),
            Error::DisplayArity => push_str(&mut out, "display requires exactly 1 argument"),
            Error::LengthArity => push_str(&mut out, "length requires exactly 1 argument"),
            Error::LengthNotList => push_str(&mut out, "length: argument must be a list"),
            Error::AppendNotList => push_str(&mut out, "append: arguments must be lists"),
            Error::MapArity => push_str(&mut out, "map requires exactly 2 arguments"),
            Error::MapNotList => push_str(&mut out, "map: second argument must be a list"),
            Error::ApplyArity => push_str(&mut out, "apply requires exactly 2 arguments"),
            Error::ApplyNotList => push_str(&mut out, "apply: second argument must be a list"),
            Error::UnknownBuiltin(s) => {
                push_str(&mut out, "Unknown builtin function: ");
                let cs = chars_of(s.as_str());
                push_chars(&mut out, cs.as_slice());
            },
        }
        string_of(out.as_slice())
    }
}

} // verus!
