//! The library's error type. Failures are carried as plain message strings,
//! classified as I/O, parse, or other.
use vstd::prelude::*;

verus! {

#[derive(Debug)]
pub enum AppError {
    IO(String),
    Parse(String),
    Other(String),
}

impl AppError {
    /// The rendered message for this error: its class, then the detail.
    pub open spec fn message_s(self) -> Seq<char> {
        match self {
            AppError::IO(m) => "IO error: "@ + m@,
            AppError::Parse(m) => "parse error: "@ + m@,
            AppError::Other(m) => "other: "@ + m@,
        }
    }

    pub fn message(&self) -> (r: String)
        ensures
            r@ == self.message_s(),
    {
        match self {
            AppError::IO(m) => {
                let mut s = String::new();
                s.append("IO error: ");
                s.append(m.as_str());
                proof {
                    assert(s@ =~= "IO error: "@ + m@);
                }
                s
            },
            AppError::Parse(m) => {
                let mut s = String::new();
                s.append("parse error: ");
                s.append(m.as_str());
                proof {
                    assert(s@ =~= "parse error: "@ + m@);
                }
                s
            },
            AppError::Other(m) => {
                let mut s = String::new();
                s.append("other: ");
                s.append(m.as_str());
                proof {
                    assert(s@ =~= "other: "@ + m@);
                }
                s
            },
        }
    }
}

} // verus!
