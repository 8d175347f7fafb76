//! The paths of the pages, under the path the application is served at.

use crate::text::{decimal, push_decimal, trim_end, trim_end_matches};
use vstd::prelude::*;
use vstd::string::StringExecFns;

verus! {

/// The path of the asset `path` under `base`: directly under the root where
/// `base` is empty or the root itself, else under `base` without the slashes
/// at its end.
pub open spec fn asset_path(base: Seq<char>, path: Seq<char>) -> Seq<char> {
    if base.len() == 0 || base == "/"@ {
        "/"@ + path
    } else {
        trim_end(base, '/') + "/"@ + path
    }
}

/// The path of the asset `path` under `base`.
pub fn asset_under(base: &String, path: &str) -> (r: String)
    ensures
        r@ == asset_path(base@, path@),
{
    let root = String::from_str("/");
    if base.as_str().is_empty() || *base == root {
        let mut r = root;
        r.append(path);
        r
    } else {
        let mut r = trim_end_matches(base.as_str(), '/');
        r.append("/");
        r.append(path);
        r
    }
}

/// The paths of the pages.
#[derive(Debug, Clone, PartialEq, Eq)]
pub struct Router {
    pub base_path: String,
}

impl Router {
    /// The base path followed by `tail`.
    fn under(&self, tail: &str) -> (r: String)
        ensures
            r@ == self.base_path@ + tail@,
    {
        let mut r = self.base_path.clone();
        r.append(tail);
        r
    }

    /// The path of an asset.
    pub fn assets(&self, path: &str) -> (r: String)
        ensures
            r@ == asset_path(self.base_path@, path@),
    {
        asset_under(&self.base_path, path)
    }

    /// The path of the book list.
    pub fn root_path(&self) -> (r: String)
        ensures
            r@ == self.base_path@ + "/"@,
    {
        self.under("/")
    }

    /// The path of the form for a new book.
    pub fn new_book_path(&self) -> (r: String)
        ensures
            r@ == self.base_path@ + "/books/new"@,
    {
        self.under("/books/new")
    }

    /// The path that a new book is sent to.
    pub fn create_book_path(&self) -> (r: String)
        ensures
            r@ == self.base_path@ + "/books"@,
    {
        self.under("/books")
    }

    /// The path of the book `id`.
    pub fn update_book_path(&self, id: &i32) -> (r: String)
        ensures
            r@ == self.base_path@ + "/books/"@ + decimal(*id as int),
    {
        let mut r = self.under("/books/");
        push_decimal(&mut r, *id as i64);
        r
    }

    /// The path of the book list as comma-separated values.
    pub fn download_csv_book_path(&self) -> (r: String)
        ensures
            r@ == self.base_path@ + "/books/download_csv"@,
    {
        self.under("/books/download_csv")
    }

    /// The path of the user list.
    pub fn index_user_path(&self) -> (r: String)
        ensures
            r@ == self.base_path@ + "/users"@,
    {
        self.under("/users")
    }

    /// The path of the form for a new user.
    pub fn new_user_path(&self) -> (r: String)
        ensures
            r@ == self.base_path@ + "/users/new"@,
    {
        self.under("/users/new")
    }

    /// The path that a new user is sent to.
    pub fn create_user_path(&self) -> (r: String)
        ensures
            r@ == self.base_path@ + "/users"@,
    {
        self.under("/users")
    }

    /// The path of the user `id`.
    pub fn update_user_path(&self, id: &i32) -> (r: String)
        ensures
            r@ == self.base_path@ + "/users/"@ + decimal(*id as int),
    {
        let mut r = self.under("/users/");
        push_decimal(&mut r, *id as i64);
        r
    }
}

} // verus!
