//! An engine for the untyped lambda calculus: terms with de Bruijn indices,
//! capture-avoiding substitution, beta and eta reduction, a bounded
//! normal-order simplifier with Church-numeral fast paths, and a decorated
//! view that addresses single reductions by id.
pub mod builder;
pub mod display;
pub mod error;
pub mod eval;
pub mod exp;
pub mod label;
pub mod laws;
pub mod parser;
pub mod session;
pub mod view;

pub use error::Error;
pub use eval::{ProfileData, SIMPLIFY_LIMIT};
pub use exp::{Exp, Ident};
pub use label::Label;
