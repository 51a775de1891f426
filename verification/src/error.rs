use vstd::prelude::*;
use crate::text::{chars_of, string_from_chars};

verus! {

/// Errors reported by the store and the request checks.
#[derive(Clone, Debug)]
pub enum AppError {
    /// A storage-level failure (a constraint of the relational model was violated).
    Database(String),
    /// The named entity does not exist.
    NotFound(String),
    /// The request carries a value that the rules refuse.
    InvalidInput(String),
    /// A value could not be encoded or decoded.
    Serde(String),
    /// Any other failure, with its message.
    General(String),
}

/// The text that `message` renders for an error.
pub open spec fn error_text(e: AppError) -> Seq<char> {
    match e {
        AppError::Database(m) => seq!['d', 'a', 't', 'a', 'b', 'a', 's', 'e', ' ', 'e', 'r', 'r', 'o', 'r', ':', ' '] + m@,
        AppError::NotFound(m) => seq!['e', 'n', 't', 'i', 't', 'y', ' ', 'n', 'o', 't', ' ', 'f', 'o', 'u', 'n', 'd', ':', ' '] + m@,
        AppError::InvalidInput(m) => seq!['i', 'n', 'v', 'a', 'l', 'i', 'd', ' ', 'i', 'n', 'p', 'u', 't', ':', ' '] + m@,
        AppError::Serde(m) => seq!['s', 'e', 'r', 'i', 'a', 'l', 'i', 'z', 'a', 't', 'i', 'o', 'n', ' ', 'e', 'r', 'r', 'o', 'r', ':', ' '] + m@,
        AppError::General(m) => m@,
    }
}

/// `r` failed with `NotFound` carrying the message `msg`.
pub open spec fn not_found<T>(r: Result<T, AppError>, msg: Seq<char>) -> bool {
    r matches Err(AppError::NotFound(m)) && m@ == msg
}

/// `r` failed with `InvalidInput` carrying the message `msg`.
pub open spec fn invalid_input<T>(r: Result<T, AppError>, msg: Seq<char>) -> bool {
    r matches Err(AppError::InvalidInput(m)) && m@ == msg
}

/// `r` failed with a storage error.
pub open spec fn db_error<T>(r: Result<T, AppError>) -> bool {
    r matches Err(AppError::Database(_))
}

impl AppError {
    /// The human-readable message of the error (what its `Display` prints).
    pub fn message(&self) -> (r: String)
        ensures
            r@ == error_text(*self),
    {
        let (prefix, m) = match self {
            AppError::Database(m) => ("database error: ", m),
            AppError::NotFound(m) => ("entity not found: ", m),
            AppError::InvalidInput(m) => ("invalid input: ", m),
            AppError::Serde(m) => ("serialization error: ", m),
            AppError::General(m) => ("", m),
        };
        proof {
            reveal_strlit("database error: ");
            reveal_strlit("entity not found: ");
            reveal_strlit("invalid input: ");
            reveal_strlit("serialization error: ");
            reveal_strlit("");
        }
        let mut v = chars_of(prefix);
        let mc = chars_of(m.as_str());
        v.append(&mut mc.clone());
        let r = string_from_chars(&v);
        proof {
            assert(r@ =~= error_text(*self));
        }
        r
    }
}

} // verus!
