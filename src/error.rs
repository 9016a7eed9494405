//! Diagnostics of the Carlo language.
//!
//! Inside the library errors are reported, not raised: each one is recorded
//! beside a placeholder result, and the caller decides how to show it.

use vstd::prelude::*;
use crate::text::push_str;
use crate::token::TokenClass;

verus! {

/// Enumerates the errors reported by the Carlo language.
#[derive(Clone, Debug)]
pub enum Error {
    UnrecognizedSubcommand(String),
    UnrecognizedFlag(String),
    UnrecognizedArgument(String),
    CouldNotFindFile(String),
    CouldNotReadFile(String),
    NoInputFile,
    CouldNotParseNumber(String),
    CouldNotParse(String),
    UnexpectedEOF(String),
    Expected(TokenClass, TokenClass),
    CouldNotParseExponent(String),
    NoHelpAvailable(String),
    CouldNotReadLine(String),
    CouldNotFlushStdout(String),
    UndeclaredVariable(String),
    /// A sum or difference of quantities whose powers of one base dimension
    /// differ: the dimension, the left power and the right power.
    UnmatchedUnits(String, String, String),
    /// A result that does not fit the exact number representation.
    ArithmeticOverflow(String),
    DivisionByZero(String),
    /// The square root of a negative quantity.
    NegativeRoot(String),
    /// A name whose definition refers back to itself.
    CyclicDefinition(String),
}

/// What an error is, to the contracts: its kind and the texts it names.
pub enum Warning {
    UnrecognizedSubcommand(Seq<char>),
    UnrecognizedFlag(Seq<char>),
    UnrecognizedArgument(Seq<char>),
    CouldNotFindFile(Seq<char>),
    CouldNotReadFile(Seq<char>),
    NoInputFile,
    CouldNotParseNumber(Seq<char>),
    CouldNotParse(Seq<char>),
    UnexpectedEOF(Seq<char>),
    Expected(TokenClass, TokenClass),
    CouldNotParseExponent(Seq<char>),
    NoHelpAvailable(Seq<char>),
    CouldNotReadLine(Seq<char>),
    CouldNotFlushStdout(Seq<char>),
    UndeclaredVariable(Seq<char>),
    UnmatchedUnits(Seq<char>, Seq<char>, Seq<char>),
    ArithmeticOverflow(Seq<char>),
    DivisionByZero(Seq<char>),
    NegativeRoot(Seq<char>),
    CyclicDefinition(Seq<char>),
}

pub open spec fn warning_of(e: Error) -> Warning {
    match e {
        Error::UnrecognizedSubcommand(s) => Warning::UnrecognizedSubcommand(s@),
        Error::UnrecognizedFlag(s) => Warning::UnrecognizedFlag(s@),
        Error::UnrecognizedArgument(s) => Warning::UnrecognizedArgument(s@),
        Error::CouldNotFindFile(s) => Warning::CouldNotFindFile(s@),
        Error::CouldNotReadFile(s) => Warning::CouldNotReadFile(s@),
        Error::NoInputFile => Warning::NoInputFile,
        Error::CouldNotParseNumber(s) => Warning::CouldNotParseNumber(s@),
        Error::CouldNotParse(s) => Warning::CouldNotParse(s@),
        Error::UnexpectedEOF(s) => Warning::UnexpectedEOF(s@),
        Error::Expected(x, a) => Warning::Expected(x, a),
        Error::CouldNotParseExponent(s) => Warning::CouldNotParseExponent(s@),
        Error::NoHelpAvailable(s) => Warning::NoHelpAvailable(s@),
        Error::CouldNotReadLine(s) => Warning::CouldNotReadLine(s@),
        Error::CouldNotFlushStdout(s) => Warning::CouldNotFlushStdout(s@),
        Error::UndeclaredVariable(s) => Warning::UndeclaredVariable(s@),
        Error::UnmatchedUnits(u, l, r) => Warning::UnmatchedUnits(u@, l@, r@),
        Error::ArithmeticOverflow(s) => Warning::ArithmeticOverflow(s@),
        Error::DivisionByZero(s) => Warning::DivisionByZero(s@),
        Error::NegativeRoot(s) => Warning::NegativeRoot(s@),
        Error::CyclicDefinition(s) => Warning::CyclicDefinition(s@),
    }
}

/// A sequence of errors, as the contracts see it.
pub open spec fn warnings_of(s: Seq<Error>) -> Seq<Warning> {
    s.map_values(|e: Error| warning_of(e))
}

pub proof fn lemma_warnings_push(s: Seq<Error>, e: Error)
    ensures
        warnings_of(s.push(e)) == warnings_of(s).push(warning_of(e)),
{
    assert(warnings_of(s.push(e)) =~= warnings_of(s).push(warning_of(e)));
}

pub proof fn lemma_warnings_append(s: Seq<Error>, t: Seq<Error>)
    ensures
        warnings_of(s + t) == warnings_of(s) + warnings_of(t),
{
    assert(warnings_of(s + t) =~= warnings_of(s) + warnings_of(t));
}

/// Records one warning.
pub fn report(warnings: &mut Vec<Error>, e: Error)
    ensures
        warnings_of(final(warnings)@) == warnings_of(old(warnings)@).push(warning_of(e)),
{
    let ghost w = warning_of(e);
    warnings.push(e);
    proof {
        lemma_warnings_push(old(warnings)@, e);
    }
}

/// The characters of a string literal, as a sequence.
pub open spec fn lit(s: &str) -> Seq<char> {
    s@
}

/// The message that describes an error.
pub open spec fn message_of(e: Error) -> Seq<char> {
    match e {
        Error::UnrecognizedSubcommand(s) => lit("Did not recognize subcommand: ") + s@,
        Error::UnrecognizedFlag(s) => lit("Did not recognize flag: ") + s@,
        Error::UnrecognizedArgument(s) => lit("Did not recognize argument: ") + s@,
        Error::CouldNotFindFile(s) => lit("Could not locate file: ") + s@,
        Error::CouldNotReadFile(s) => lit("Could not read file: ") + s@,
        Error::NoInputFile => lit("No input file provided"),
        Error::CouldNotParseNumber(s) => lit("Could not parse number: ") + s@,
        Error::CouldNotParse(s) => lit("Could not parse near token (") + s@ + lit(")"),
        Error::UnexpectedEOF(s) => lit("Unexpected EOF near token (") + s@ + lit(")"),
        Error::Expected(x, a) => lit("Expected token of class (") + x.name_spec() + lit(
            ") but instead found token of class (",
        ) + a.name_spec() + lit(")"),
        Error::CouldNotParseExponent(s) => lit("Could not parse as numeric exponent: ") + s@,
        Error::NoHelpAvailable(s) => lit("No help available for subcommand: ") + s@,
        Error::CouldNotReadLine(s) => lit("Could not read user input near In[") + s@ + lit("]"),
        Error::CouldNotFlushStdout(s) => lit("Could not flush stdout near In[") + s@ + lit("]"),
        Error::UndeclaredVariable(s) => lit("Found undeclared variable: ") + s@,
        Error::UnmatchedUnits(u, l, r) => lit("Unmatched unit powers (") + u@ + lit("^") + l@
            + lit(") and (") + u@ + lit("^") + r@ + lit(")"),
        Error::ArithmeticOverflow(s) => lit("Arithmetic result out of range: ") + s@,
        Error::DivisionByZero(s) => lit("Division by zero: ") + s@,
        Error::NegativeRoot(s) => lit("Square root of a negative quantity: ") + s@,
        Error::CyclicDefinition(s) => lit("Found cyclic definition of variable: ") + s@,
    }
}

fn text2(a: &str, b: &str) -> (r: String)
    ensures
        r@ == a@ + b@,
{
    let mut r = String::new();
    push_str(&mut r, a);
    push_str(&mut r, b);
    proof {
        assert(r@ =~= a@ + b@);
    }
    r
}

impl Error {
    /// The message that describes this error.
    pub fn message(&self) -> (r: String)
        ensures
            r@ == message_of(*self),
    {
        proof {
            reveal_strlit("No input file provided");
            reveal_strlit("Did not recognize subcommand: ");
            reveal_strlit("Did not recognize flag: ");
            reveal_strlit("Did not recognize argument: ");
            reveal_strlit("Could not locate file: ");
            reveal_strlit("Could not read file: ");
            reveal_strlit("Could not parse number: ");
            reveal_strlit("Could not parse near token (");
            reveal_strlit("Unexpected EOF near token (");
            reveal_strlit("Expected token of class (");
            reveal_strlit("Could not parse as numeric exponent: ");
            reveal_strlit("No help available for subcommand: ");
            reveal_strlit("Could not read user input near In[");
            reveal_strlit("Could not flush stdout near In[");
            reveal_strlit("Found undeclared variable: ");
            reveal_strlit("Unmatched unit powers (");
            reveal_strlit("Arithmetic result out of range: ");
            reveal_strlit("Division by zero: ");
            reveal_strlit("Square root of a negative quantity: ");
            reveal_strlit("Found cyclic definition of variable: ");
        }
        match self {
            Error::UnrecognizedSubcommand(s) => text2("Did not recognize subcommand: ", s.as_str()),
            Error::UnrecognizedFlag(s) => text2("Did not recognize flag: ", s.as_str()),
            Error::UnrecognizedArgument(s) => text2("Did not recognize argument: ", s.as_str()),
            Error::CouldNotFindFile(s) => text2("Could not locate file: ", s.as_str()),
            Error::CouldNotReadFile(s) => text2("Could not read file: ", s.as_str()),
            Error::NoInputFile => {
                let r = text2("No input file provided", "");
                proof {
                    reveal_strlit("");
                    assert(r@ =~= message_of(*self));
                }
                r
            },
            Error::CouldNotParseNumber(s) => text2("Could not parse number: ", s.as_str()),
            Error::CouldNotParse(s) => {
                let mut r = text2("Could not parse near token (", s.as_str());
                push_str(&mut r, ")");
                r
            },
            Error::UnexpectedEOF(s) => {
                let mut r = text2("Unexpected EOF near token (", s.as_str());
                push_str(&mut r, ")");
                r
            },
            Error::Expected(x, a) => {
                let mut r = text2("Expected token of class (", x.name());
                push_str(&mut r, ") but instead found token of class (");
                push_str(&mut r, a.name());
                push_str(&mut r, ")");
                r
            },
            Error::CouldNotParseExponent(s) => text2(
                "Could not parse as numeric exponent: ",
                s.as_str(),
            ),
            Error::NoHelpAvailable(s) => text2("No help available for subcommand: ", s.as_str()),
            Error::CouldNotReadLine(s) => {
                let mut r = text2("Could not read user input near In[", s.as_str());
                push_str(&mut r, "]");
                r
            },
            Error::CouldNotFlushStdout(s) => {
                let mut r = text2("Could not flush stdout near In[", s.as_str());
                push_str(&mut r, "]");
                r
            },
            Error::UndeclaredVariable(s) => text2("Found undeclared variable: ", s.as_str()),
            Error::UnmatchedUnits(u, l, r) => {
                let mut out = text2("Unmatched unit powers (", u.as_str());
                push_str(&mut out, "^");
                push_str(&mut out, l.as_str());
                push_str(&mut out, ") and (");
                push_str(&mut out, u.as_str());
                push_str(&mut out, "^");
                push_str(&mut out, r.as_str());
                push_str(&mut out, ")");
                out
            },
            Error::ArithmeticOverflow(s) => text2("Arithmetic result out of range: ", s.as_str()),
            Error::DivisionByZero(s) => text2("Division by zero: ", s.as_str()),
            Error::NegativeRoot(s) => text2("Square root of a negative quantity: ", s.as_str()),
            Error::CyclicDefinition(s) => text2("Found cyclic definition of variable: ", s.as_str()),
        }
    }
}

} // verus!
