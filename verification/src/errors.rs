//! The errors the library reports: a duplicate fingerprint on insert, a
//! missing id on a targeted operation, rejected input, and a storage
//! engine that cannot be reached or queried.

use vstd::prelude::*;

use crate::strutil::{i64_to_string, dec_i64};

verus! {

#[derive(Debug)]
pub enum StashError {
    /// Inserting would duplicate this fingerprint.
    ConstraintViolation { hash: String },
    /// No row has this id.
    NotFound { id: i64 },
    /// The input named here was rejected before any write.
    ValidationError { message: String },
    /// The storage engine failed; nothing can be said about the data.
    StoreUnavailable { message: String },
}

impl StashError {
    /// A line a caller can show for this error.
    pub fn describe(&self) -> (r: String)
        ensures
            r@ == match *self {
                StashError::ConstraintViolation { hash } => "an article with hash "@.add(
                    hash@,
                ).add(" exists already"@),
                StashError::NotFound { id } => "no article with id "@.add(dec_i64(id as int)),
                StashError::ValidationError { message } => "invalid input: "@.add(message@),
                StashError::StoreUnavailable { message } => "storage unavailable: "@.add(
                    message@,
                ),
            },
    {
        match self {
            StashError::ConstraintViolation { hash } => {
                let mut s = String::from_str("an article with hash ");
                s.append(hash.as_str());
                s.append(" exists already");
                s
            },
            StashError::NotFound { id } => {
                let mut s = String::from_str("no article with id ");
                let num = i64_to_string(*id);
                s.append(num.as_str());
                s
            },
            StashError::ValidationError { message } => {
                let mut s = String::from_str("invalid input: ");
                s.append(message.as_str());
                s
            },
            StashError::StoreUnavailable { message } => {
                let mut s = String::from_str("storage unavailable: ");
                s.append(message.as_str());
                s
            },
        }
    }
}

} // verus!
