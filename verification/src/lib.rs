//! Core of a small just-in-time compiler backend.
//!
//! The crate consumes a fully type-checked program, given as an indexed
//! control-flow intermediate representation (`ir`), and lowers it to an
//! explicit native-instruction program (`native`) that an embedding host
//! can hand to a machine-code backend.  The lowering itself, the dense
//! index maps it relies on, the host-function bridge and the structural
//! verification of the produced code are all verified here.

use vstd::prelude::*;

pub mod bridge;
pub mod eval;
pub mod idmap;
pub mod ir;
pub mod lower;
pub mod modgen;
pub mod native;

verus! {

/// Recoverable, caller-facing errors.  Internal-invariant violations are
/// not represented here: the verified functions of this crate rule them
/// out by precondition instead of failing at run time.
#[derive(Debug, Clone)]
pub enum Error {
    NoMainFn,
    InvalidMainFn,
    StaticRedefined(String),
    VariableNotFound(String),
    Type(String),
}

/// The message text that `describe` renders for each error.
pub open spec fn error_message(e: Error) -> Seq<char> {
    match e {
        Error::NoMainFn => "no main function"@,
        Error::InvalidMainFn => "invalid main function signature"@,
        Error::StaticRedefined(name) => "static `"@ + name@ + "` already defined"@,
        Error::VariableNotFound(name) => "variable `"@ + name@ + "` not found"@,
        Error::Type(e) => e@,
    }
}

impl Error {
    /// A human-readable rendering of the error.
    pub fn describe(&self) -> (r: String)
        ensures
            r@ == error_message(*self),
    {
        match self {
            Error::NoMainFn => "no main function".to_owned(),
            Error::InvalidMainFn => "invalid main function signature".to_owned(),
            Error::StaticRedefined(name) => {
                let mut s = "static `".to_owned();
                s.append(name.as_str());
                s.append("` already defined");
                s
            },
            Error::VariableNotFound(name) => {
                let mut s = "variable `".to_owned();
                s.append(name.as_str());
                s.append("` not found");
                s
            },
            Error::Type(e) => e.clone(),
        }
    }
}

} // verus!
