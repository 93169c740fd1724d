//! Errors of the library's own.
use vstd::prelude::*;
use vstd::string::StringExecFns;

verus! {

#[derive(Debug)]
pub enum TepError {
    NotImplemented(&'static str),
}

impl TepError {
    /// The error's message.
    pub fn message(&self) -> (r: String)
        ensures
            match self {
                TepError::NotImplemented(what) => r@ == "not implemented: "@ + what@,
            },
    {
        match self {
            TepError::NotImplemented(what) => {
                let mut s = String::from_str("not implemented: ");
                s.append(what);
                s
            },
        }
    }
}

} // verus!
