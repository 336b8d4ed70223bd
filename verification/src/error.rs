//! The errors of the client, and the line that reports each of them.

use vstd::prelude::*;
use vstd::string::StringExecFns;

use crate::text::decimal_text;
use crate::text::push_decimal;

verus! {

/// Why an invocation ended without success.
#[derive(Debug)]
pub enum Error {
    /// A required environment variable is not set.
    MissingEnvVar(&'static str),
    /// A required environment variable is set to something unreadable.
    InvalidEnvVar { name: &'static str, source: String },
    /// The request could not be sent or its answer could not be read.
    Request(String),
    /// The service answered with a status outside 200..=299.
    Api { status: u16, message: String },
    /// The tokens or the text given as parameters are malformed.
    InvalidArgs(String),
    /// The parameters break the rules of the profile; every broken rule is
    /// listed.
    ValidationFailed(Vec<String>),
}

/// The texts of a list of strings.
pub open spec fn texts(list: Seq<String>) -> Seq<Seq<char>> {
    Seq::new(list.len(), |i: int| list[i]@)
}

/// The items one after another, with `sep` between neighbours.
pub open spec fn joined(items: Seq<Seq<char>>, sep: Seq<char>) -> Seq<char>
    decreases items.len(),
{
    if items.len() == 0 {
        Seq::empty()
    } else if items.len() == 1 {
        items[0]
    } else {
        joined(items.drop_last(), sep) + sep + items.last()
    }
}

impl Error {
    /// The line that reports this error.
    pub open spec fn text(self) -> Seq<char> {
        match self {
            Error::MissingEnvVar(name) => "missing environment variable: "@ + name@,
            Error::InvalidEnvVar { name, source } => "invalid environment variable "@ + name@
                + ": "@ + source@,
            Error::Request(reason) => "HTTP request failed: "@ + reason@,
            Error::Api { status, message } => "API error: "@ + decimal_text(status as nat)
                + " - "@ + message@,
            Error::InvalidArgs(reason) => "invalid arguments: "@ + reason@,
            Error::ValidationFailed(list) => "validation failed: "@ + joined(texts(list@), ", "@),
        }
    }

    /// The line that reports this error.
    pub fn to_string(&self) -> (s: String)
        ensures
            s@ == self.text(),
    {
        match self {
            Error::MissingEnvVar(name) => String::from_str("missing environment variable: ").concat(
                name,
            ),
            Error::InvalidEnvVar { name, source } => {
                let mut s = String::from_str("invalid environment variable ");
                s.append(name);
                s.append(": ");
                s.append(source.as_str());
                s
            },
            Error::Request(reason) => String::from_str("HTTP request failed: ").concat(
                reason.as_str(),
            ),
            Error::Api { status, message } => {
                let mut s = String::from_str("API error: ");
                push_decimal(&mut s, *status);
                s.append(" - ");
                s.append(message.as_str());
                s
            },
            Error::InvalidArgs(reason) => String::from_str("invalid arguments: ").concat(
                reason.as_str(),
            ),
            Error::ValidationFailed(list) => {
                let mut s = String::from_str("validation failed: ");
                let ghost head = s@;
                let mut i: usize = 0;
                while i < list.len()
                    invariant
                        i <= list.len(),
                        head == "validation failed: "@,
                        s@ == head + joined(texts(list@).take(i as int), ", "@),
                    decreases list.len() - i,
                {
                    if i > 0 {
                        s.append(", ");
                    }
                    s.append(list[i].as_str());
                    proof {
                        let before = texts(list@).take(i as int);
                        let now = texts(list@).take(i + 1);
                        assert(now.drop_last() =~= before);
                        assert(now.last() == list@[i as int]@);
                        assert(s@ =~= head + joined(now, ", "@));
                    }
                    i += 1;
                }
                assert(texts(list@).take(list.len() as int) =~= texts(list@));
                s
            },
        }
    }
}

} // verus!
