use vstd::prelude::*;
use vstd::string::StringExecFns;

use crate::display::{digits, push_digits, push_lit};

verus! {

/// What can go wrong in the engine.
#[derive(Debug)]
pub enum Error {
    /// Too many reductions: no normal form within the iteration bound.
    SimplifyLimitExceeded,
    /// The text could not be parsed.
    ParseError(String),
    /// No node of the term and its view carries the requested redex id.
    RedexNotFound,
    /// A node carries the redex id but the reduction did not apply there.
    InvalidRedex(usize, String),
    /// The view does not mirror the term it was paired with.
    InvalidDisplayExp,
    /// A view node has another kind than the term node it is paired with.
    InvalidInnerType,
    /// No variable of the term and its view carries the requested alpha id.
    VarNotFound(String, usize),
    /// A de Bruijn index of the term would leave the range of `u32`.
    IndexOverflow,
}

/// The message that describes an error.
pub open spec fn error_text(e: Error) -> Seq<char> {
    match e {
        Error::SimplifyLimitExceeded => "too many reductions"@,
        Error::ParseError(msg) => "error parsing: "@ + msg@,
        Error::RedexNotFound => "redex not found"@,
        Error::InvalidRedex(id, s) => "invalid redex(id = "@ + digits(id as nat) + "): "@ + s@,
        Error::InvalidDisplayExp => "invalid display expression"@,
        Error::InvalidInnerType => "invalid inner type of display expression"@,
        Error::VarNotFound(name, id) => "free variable \""@ + name@ + "\" not found, alpha_id = "@
            + digits(id as nat),
        Error::IndexOverflow => "index out of range"@,
    }
}

impl Error {
    /// The message that describes the error.
    pub fn message(&self) -> (r: String)
        ensures
            r@ == error_text(*self),
    {
        let mut s = String::new();
        match self {
            Error::SimplifyLimitExceeded => push_lit(&mut s, "too many reductions"),
            Error::ParseError(msg) => {
                push_lit(&mut s, "error parsing: ");
                push_lit(&mut s, msg.as_str());
            },
            Error::RedexNotFound => push_lit(&mut s, "redex not found"),
            Error::InvalidRedex(id, t) => {
                push_lit(&mut s, "invalid redex(id = ");
                push_digits(&mut s, *id as u64);
                push_lit(&mut s, "): ");
                push_lit(&mut s, t.as_str());
            },
            Error::InvalidDisplayExp => push_lit(&mut s, "invalid display expression"),
            Error::InvalidInnerType => push_lit(&mut s, "invalid inner type of display expression"),
            Error::VarNotFound(name, id) => {
                push_lit(&mut s, "free variable \"");
                push_lit(&mut s, name.as_str());
                push_lit(&mut s, "\" not found, alpha_id = ");
                push_digits(&mut s, *id as u64);
            },
            Error::IndexOverflow => push_lit(&mut s, "index out of range"),
        }
        assert(s@ == error_text(*self));
        s
    }
}

} // verus!
