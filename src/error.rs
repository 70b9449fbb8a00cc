use vstd::prelude::*;
use vstd::string::*;

verus! {

/// Errors of the streaming engine, by kind; each carries a short message.
#[derive(Debug)]
pub enum Error {
    /// A request feature this engine does not serve.
    Unsupported(String),
    /// A malformed cursor, hex field or range.
    InvalidInput(String),
    /// A single block past every source.
    NotFound(String),
    /// A source returned an error or an invalid payload.
    Upstream(String),
    /// A block that cannot be translated.
    Encoding(String),
}

/// `invalid <label>: <value>`.
pub open spec fn invalid_message(label: Seq<char>, value: Seq<char>) -> Seq<char> {
    seq!['i', 'n', 'v', 'a', 'l', 'i', 'd', ' '] + label + seq![':', ' '] + value
}

/// Whether `e` is the invalid-input error that names field `label` with
/// text `value`.
pub open spec fn is_invalid_field(e: Error, label: Seq<char>, value: Seq<char>) -> bool {
    e matches Error::InvalidInput(m) && m@ == invalid_message(label, value)
}

impl Error {
    /// `invalid <label>: <value>`.
    pub fn invalid_field(label: &str, value: &str) -> (r: Error)
        ensures
            is_invalid_field(r, label@, value@),
    {
        proof {
            reveal_strlit("invalid ");
            reveal_strlit(": ");
        }
        let msg = String::from_str("invalid ").concat(label).concat(": ").concat(value);
        assert(msg@ =~= invalid_message(label@, value@));
        Error::InvalidInput(msg)
    }

    /// The message carried by the error.
    pub fn message(&self) -> (r: String)
        ensures
            r@ == match self {
                Error::Unsupported(m) => m@,
                Error::InvalidInput(m) => m@,
                Error::NotFound(m) => m@,
                Error::Upstream(m) => m@,
                Error::Encoding(m) => m@,
            },
    {
        match self {
            Error::Unsupported(m) => m.clone(),
            Error::InvalidInput(m) => m.clone(),
            Error::NotFound(m) => m.clone(),
            Error::Upstream(m) => m.clone(),
            Error::Encoding(m) => m.clone(),
        }
    }
}

} // verus!
