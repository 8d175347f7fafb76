//! What a page can fail with.

use crate::models::book::BookError;
use crate::models::user::UserError;
use crate::text::{decimal, push_decimal};
use vstd::prelude::*;
use vstd::string::StringExecFns;

verus! {

/// Why a page could not be made.
#[derive(Debug)]
#[allow(inconsistent_fields)]
pub enum AppStateError {
    /// The user service refused.
    User { source: UserError },
    /// The book service refused.
    Book { source: BookError },
    /// A record could not be written to the table being exported.
    CSV { source: csv::Error },
    /// The bytes of the exported table could not be handed over.
    IO { source: std::io::Error },
}

impl BookError {
    /// The text of the error.
    pub open spec fn message_text(self) -> Seq<char> {
        match self {
            BookError::DB { source } => "Database error"@,
            BookError::NotFound { id } => "Book with id "@ + decimal(id as int) + " not found"@,
        }
    }

    /// The error in words.
    pub fn message(&self) -> (r: String)
        ensures
            r@ == self.message_text(),
    {
        match self {
            BookError::DB { source: _ } => String::from_str("Database error"),
            BookError::NotFound { id } => {
                let mut r = String::from_str("Book with id ");
                push_decimal(&mut r, *id as i64);
                r.append(" not found");
                r
            },
        }
    }
}

impl UserError {
    /// The text of the error.
    pub open spec fn message_text(self) -> Seq<char> {
        match self {
            UserError::DB { source } => "Database error"@,
            UserError::NotFound { id } => "User with id "@ + decimal(id as int) + " not found"@,
            UserError::Book { source } => "Book error"@,
        }
    }

    /// The error in words.
    pub fn message(&self) -> (r: String)
        ensures
            r@ == self.message_text(),
    {
        match self {
            UserError::DB { source: _ } => String::from_str("Database error"),
            UserError::NotFound { id } => {
                let mut r = String::from_str("User with id ");
                push_decimal(&mut r, *id as i64);
                r.append(" not found");
                r
            },
            UserError::Book { source: _ } => String::from_str("Book error"),
        }
    }
}

impl AppStateError {
    /// The text of the error.
    pub open spec fn message_text(self) -> Seq<char> {
        match self {
            AppStateError::User { source } => "User Model Error"@,
            AppStateError::Book { source } => "Book Model Error"@,
            AppStateError::CSV { source } => "CSV Error"@,
            AppStateError::IO { source } => "IO Error"@,
        }
    }

    /// The error in words.
    pub fn message(&self) -> (r: String)
        ensures
            r@ == self.message_text(),
    {
        match self {
            AppStateError::User { source: _ } => String::from_str("User Model Error"),
            AppStateError::Book { source: _ } => String::from_str("Book Model Error"),
            AppStateError::CSV { source: _ } => String::from_str("CSV Error"),
            AppStateError::IO { source: _ } => String::from_str("IO Error"),
        }
    }
}

} // verus!
