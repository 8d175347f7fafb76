//! The book pages.

use crate::models::book::{
    clone_text, holder_view, listing, paginate, BookError, BookView,
    Model as BookModel,
};
use crate::models::user::{Model as UserModel, UserError, UserOperator, UserView};
use crate::routes::router::Router;
use crate::routes::Redirect;
use crate::state::database::book_violation;
use crate::state::error::AppStateError;
use crate::state::table::{find, lemma_filter_push, lemma_find_push};
use crate::tabular::{csv_bytes, encode, even};
use crate::text::{contains, decimal, decimal_string, push_decimal};
use std::collections::HashMap;
use vstd::prelude::*;
use vstd::std_specs::hash::group_hash_axioms;
use vstd::string::StringExecFns;

verus! {

/// What the book list can be narrowed by, and the page asked for.
#[derive(Debug, PartialEq, Eq)]
pub struct IndexQuery {
    pub title: Option<String>,
    pub page: Option<usize>,
    pub authors: Option<String>,
    pub owner_id: Option<i32>,
    pub current_holder_id: Option<i32>,
}

impl Clone for IndexQuery {
    fn clone(&self) -> (r: Self)
        ensures
            r == *self,
    {
        IndexQuery {
            title: clone_text(&self.title),
            page: self.page,
            authors: clone_text(&self.authors),
            owner_id: self.owner_id,
            current_holder_id: self.current_holder_id,
        }
    }
}

impl IndexQuery {
    /// `b` passes every test that the query holds: the title and the authors
    /// hold the texts given, the owner and the holder are the users given. A
    /// test that the query leaves out lets every book pass.
    pub open spec fn matches(self, b: BookView) -> bool {
        &&& self.title matches Some(t) ==> contains(b.title, t@)
        &&& self.authors matches Some(a) ==> contains(b.authors, a@)
        &&& self.owner_id matches Some(o) ==> b.owner_id == o
        &&& self.current_holder_id matches Some(h) ==> b.current_holder_id == Some(h as int)
    }
}

/// `b` passes the query, where there is one.
pub open spec fn query_matches(query: Option<IndexQuery>, b: BookView) -> bool {
    match query {
        Some(q) => q.matches(b),
        None => true,
    }
}

/// `query_matches` as a predicate, for `Seq::filter`.
pub open spec fn query_selects(query: Option<IndexQuery>) -> spec_fn(BookView) -> bool {
    |b: BookView| query_matches(query, b)
}

/// What a book is made or changed from: every column but the identifier.
#[derive(Debug, PartialEq, Eq)]
pub struct BookForm {
    pub title: String,
    pub authors: String,
    pub owner_id: i32,
    pub description: Option<String>,
    pub comment: Option<String>,
    pub current_holder_id: Option<i32>,
}

impl BookForm {
    /// The row that the form describes, under the identifier `id`. An optional
    /// column that the form leaves out is absent in the row.
    pub open spec fn row(self, id: int) -> BookView {
        BookView {
            id,
            title: self.title@,
            authors: self.authors@,
            description: self.description.deep_view(),
            comment: self.comment.deep_view(),
            owner_id: self.owner_id as int,
            current_holder_id: holder_view(self.current_holder_id),
        }
    }

    /// The row that the form describes, under the identifier `id`.
    pub fn to_model(&self, id: i32) -> (m: BookModel)
        ensures
            m@ == self.row(id as int),
    {
        BookModel {
            id,
            title: self.title.clone(),
            authors: self.authors.clone(),
            description: clone_text(&self.description),
            comment: clone_text(&self.comment),
            owner_id: self.owner_id,
            current_holder_id: self.current_holder_id,
        }
    }
}

/// A book with the users it names: its owner, and its holder where it has
/// one that is among the users.
#[derive(Debug, PartialEq, Eq)]
pub struct BookWithUser {
    pub book: BookModel,
    pub owner: UserModel,
    pub current_holder: Option<UserModel>,
}

/// A book with its users as the contracts see it.
pub struct BookWithUserView {
    pub book: BookView,
    pub owner: UserView,
    pub current_holder: Option<UserView>,
}

impl View for BookWithUser {
    type V = BookWithUserView;

    open spec fn view(&self) -> BookWithUserView {
        BookWithUserView {
            book: self.book@,
            owner: self.owner@,
            current_holder: self.current_holder.deep_view(),
        }
    }
}

impl DeepView for BookWithUser {
    type V = BookWithUserView;

    open spec fn deep_view(&self) -> BookWithUserView {
        self@
    }
}

/// The book list page.
#[derive(Debug, PartialEq, Eq)]
pub struct BookIndexTemplate {
    pub books_with_user: Vec<BookWithUser>,
    pub query: IndexQuery,
    pub users: Vec<UserModel>,
    pub current_page: u64,
    pub total_page: u64,
    pub base_query: String,
    pub router: Router,
}

/// The page of one book.
#[derive(Debug, PartialEq, Eq)]
pub struct ShowBookTemplate {
    pub book: BookModel,
    pub owner: UserModel,
    pub current_holder: Option<UserModel>,
    pub router: Router,
}

/// The form for a new book.
#[derive(Debug, PartialEq, Eq)]
pub struct NewBookTemplate {
    pub users: Vec<UserModel>,
    pub router: Router,
}

/// The form that changes a book.
#[derive(Debug, PartialEq, Eq)]
pub struct EditBookTemplate {
    pub users: Vec<UserModel>,
    pub book: BookModel,
    pub router: Router,
}

/// The page asked for, counted from one: the first where none is asked for,
/// or one below the first.
pub open spec fn page_number(page: Option<usize>) -> int {
    match page {
        Some(p) => if p >= 1 {
            p as int
        } else {
            1
        },
        None => 1,
    }
}

/// The holder of `b` among `users`, where it has one and they are there.
pub open spec fn holder_of(users: Seq<UserView>, b: BookView) -> Option<UserView> {
    match b.current_holder_id {
        Some(h) => find(users, h),
        None => None,
    }
}

/// The owner of `b` is among `users`.
pub open spec fn has_owner(users: Seq<UserView>) -> spec_fn(BookView) -> bool {
    |b: BookView| find(users, b.owner_id) is Some
}

/// `b` with its owner and its holder from `users`.
pub open spec fn attach(users: Seq<UserView>) -> spec_fn(BookView) -> BookWithUserView {
    |b: BookView|
        BookWithUserView {
            book: b,
            owner: find(users, b.owner_id)->0,
            current_holder: holder_of(users, b),
        }
}

/// The books whose owner is among `users`, in their order, each with its
/// owner and its holder.
pub open spec fn with_users(books: Seq<BookView>, users: Seq<UserView>) -> Seq<BookWithUserView> {
    books.filter(has_owner(users)).map_values(attach(users))
}

/// One column of a query in a link: the column, `=`, the text and `&`, or
/// nothing where the query does not name the column.
pub open spec fn text_part(column: Seq<char>, value: Option<String>) -> Seq<char> {
    match value {
        Some(v) => column + "="@ + v@ + "&"@,
        None => Seq::empty(),
    }
}

/// One column of a query in a link: the column, `=`, the identifier in
/// decimal and `&`, or nothing where the query does not name the column.
pub open spec fn id_part(column: Seq<char>, value: Option<i32>) -> Seq<char> {
    match value {
        Some(v) => column + "="@ + decimal(v as int) + "&"@,
        None => Seq::empty(),
    }
}

/// The part of a link that carries the query over to another page: the
/// title, the authors, the owner and the holder, each where the query names it.
pub open spec fn base_query_text(query: IndexQuery) -> Seq<char> {
    text_part("title"@, query.title) + text_part("authors"@, query.authors) + id_part(
        "owner_id"@,
        query.owner_id,
    ) + id_part("current_holder_id"@, query.current_holder_id)
}

/// `map` holds, under each identifier, the user that a lookup among `users`
/// finds, and nothing under any other identifier.
pub open spec fn indexes(map: Map<i32, UserModel>, users: Seq<UserView>) -> bool {
    &&& forall|id: i32| #[trigger] map.contains_key(id) <==> find(users, id as int) is Some
    &&& forall|id: i32| #[trigger] map.contains_key(id) ==> find(users, id as int) == Some(map[id]@)
}

/// The users by identifier; of several users with one identifier, the last.
pub fn users_by_id(users: &Vec<UserModel>) -> (map: HashMap<i32, UserModel>)
    ensures
        indexes(map@, users.deep_view()),
{
    broadcast use group_hash_axioms;

    let ghost us = users.deep_view();
    let mut map: HashMap<i32, UserModel> = HashMap::new();
    let mut i: usize = 0;
    while i < users.len()
        invariant
            i <= users.len(),
            us == users.deep_view(),
            indexes(map@, us.take(i as int)),
        decreases users.len() - i,
    {
        let ghost before = map@;
        map.insert(users[i].id, users[i].clone());
        proof {
            assert(us.take(i + 1) =~= us.take(i as int).push(us[i as int]));
            assert forall|id: i32| #[trigger] map@.contains_key(id) <==> find(
                us.take(i + 1),
                id as int,
            ) is Some by {
                lemma_find_push(us.take(i as int), us[i as int], id as int);
                assert(before.contains_key(id) <==> find(us.take(i as int), id as int) is Some);
            }
            assert forall|id: i32| #[trigger] map@.contains_key(id) implies find(
                us.take(i + 1),
                id as int,
            ) == Some(map@[id]@) by {
                lemma_find_push(us.take(i as int), us[i as int], id as int);
                if id != users[i as int].id {
                    assert(before.contains_key(id));
                }
            }
        }
        i += 1;
    }
    assert(us.take(i as int) =~= us);
    map
}

/// The user of identifier `id` in the map.
pub fn find_user(user_by_id: &HashMap<i32, UserModel>, id: i32) -> (r: Option<UserModel>)
    ensures
        match r {
            Some(u) => user_by_id@.contains_key(id) && u == user_by_id@[id],
            None => !user_by_id@.contains_key(id),
        },
{
    broadcast use group_hash_axioms;

    match user_by_id.get(&id) {
        Some(user) => Some(user.clone()),
        None => None,
    }
}

/// The holder of `book` in the map, where it has one and they are there.
pub fn find_holder(user_by_id: &HashMap<i32, UserModel>, book: &BookModel) -> (r: Option<
    UserModel,
>)
    ensures
        match book.current_holder_id {
            Some(h) => match r {
                Some(u) => user_by_id@.contains_key(h) && u == user_by_id@[h],
                None => !user_by_id@.contains_key(h),
            },
            None => r is None,
        },
{
    match book.current_holder_id {
        Some(holder) => find_user(user_by_id, holder),
        None => None,
    }
}

/// The books whose owner is among `users`, in their order, each with its
/// owner and its holder. A book whose owner is not among them is left out.
pub fn join_users(books: &Vec<BookModel>, users: &Vec<UserModel>) -> (r: Vec<BookWithUser>)
    ensures
        r.deep_view() == with_users(books.deep_view(), users.deep_view()),
{
    let ghost bs = books.deep_view();
    let ghost us = users.deep_view();
    let user_by_id = users_by_id(users);
    let mut out: Vec<BookWithUser> = Vec::new();
    let mut i: usize = 0;
    proof {
        assert(bs.take(0).filter(has_owner(us)) =~= Seq::empty()) by {
            reveal(Seq::filter);
        }
        assert(out.deep_view() =~= with_users(bs.take(0), us));
    }
    while i < books.len()
        invariant
            i <= books.len(),
            bs == books.deep_view(),
            us == users.deep_view(),
            indexes(user_by_id@, us),
            out.deep_view() == with_users(bs.take(i as int), us),
        decreases books.len() - i,
    {
        let ghost before = out.deep_view();
        proof {
            lemma_filter_push(bs.take(i as int), bs[i as int], has_owner(us));
            assert(bs.take(i + 1) =~= bs.take(i as int).push(bs[i as int]));
        }
        if let Some(owner) = find_user(&user_by_id, books[i].owner_id) {
            let current_holder = find_holder(&user_by_id, &books[i]);
            out.push(BookWithUser { book: books[i].clone(), owner, current_holder });
            proof {
                let kept = bs.take(i as int).filter(has_owner(us));
                assert(kept.push(bs[i as int]).map_values(attach(us)) =~= kept.map_values(
                    attach(us),
                ).push(attach(us)(bs[i as int])));
                assert(out.deep_view() =~= before.push(attach(us)(bs[i as int])));
            }
        }
        i += 1;
    }
    assert(bs.take(i as int) =~= bs);
    out
}

fn push_text_part(r: &mut String, column: &str, value: &Option<String>)
    ensures
        final(r)@ == old(r)@ + text_part(column@, *value),
{
    if let Some(v) = value {
        r.append(column);
        r.append("=");
        r.append(v.as_str());
        r.append("&");
        assert(final(r)@ =~= old(r)@ + text_part(column@, *value));
    } else {
        assert(final(r)@ =~= old(r)@ + text_part(column@, *value));
    }
}

fn push_id_part(r: &mut String, column: &str, value: &Option<i32>)
    ensures
        final(r)@ == old(r)@ + id_part(column@, *value),
{
    if let Some(v) = value {
        r.append(column);
        r.append("=");
        push_decimal(r, *v as i64);
        r.append("&");
        assert(final(r)@ =~= old(r)@ + id_part(column@, *value));
    } else {
        assert(final(r)@ =~= old(r)@ + id_part(column@, *value));
    }
}

/// The part of a link that carries the query over to another page.
pub fn base_query(query: &IndexQuery) -> (r: String)
    ensures
        r@ == base_query_text(*query),
{
    let mut r = String::new();
    push_text_part(&mut r, "title", &query.title);
    push_text_part(&mut r, "authors", &query.authors);
    push_id_part(&mut r, "owner_id", &query.owner_id);
    push_id_part(&mut r, "current_holder_id", &query.current_holder_id);
    assert(r@ =~= base_query_text(*query));
    r
}

/// The book list: one page of the books that pass the query, newest first,
/// each with its owner and holder; every user; and what the links to the
/// other pages need.
pub fn index(services: &UserOperator, query: IndexQuery) -> (r: Result<
    BookIndexTemplate,
    AppStateError,
>)
    ensures
        r is Ok,
        ({
            let page = r->Ok_0;
            let t = services.tables();
            let listed = paginate(t.books, page_number(query.page), Some(query));
            &&& page.books_with_user.deep_view() == with_users(listed.books, t.users)
            &&& page.users.deep_view() == t.users
            &&& page.current_page == listed.current_page
            &&& page.total_page == listed.total_page
            &&& page.base_query@ == base_query_text(query)
            &&& page.router.base_path == services.books.state.config.base_path
            &&& page.query == query
        }),
{
    let page: u64 = match query.page {
        Some(p) => if p >= 1 {
            p as u64
        } else {
            1
        },
        None => 1,
    };
    let users = match services.all() {
        Ok(users) => users,
        Err(source) => {
            return Err(AppStateError::User { source });
        },
    };
    let books_paginate = match services.books.all_paginate(page, Some(query.clone())) {
        Ok(books) => books,
        Err(source) => {
            return Err(AppStateError::Book { source });
        },
    };
    let result = join_users(&books_paginate.books, &users);
    let base_query = base_query(&query);
    Ok(
        BookIndexTemplate {
            books_with_user: result,
            query,
            users,
            current_page: books_paginate.current_page,
            total_page: books_paginate.total_page,
            base_query,
            router: Router { base_path: services.books.state.config.base_path.clone() },
        },
    )
}

/// The page of the book `id`, with its owner and its holder. Without such a
/// book, or where its owner or its holder is not a user, the answer is
/// `NotFound` for the one that is missing.
pub fn show(services: &UserOperator, id: i32) -> (r: Result<ShowBookTemplate, AppStateError>)
    ensures
        match r {
            Ok(page) => {
                &&& services.tables().book(id as int) == Some(page.book@)
                &&& services.tables().user(page.book.owner_id as int) == Some(page.owner@)
                &&& match page.book.current_holder_id {
                    Some(h) => page.current_holder is Some && services.tables().user(h as int)
                        == Some(page.current_holder->0@),
                    None => page.current_holder is None,
                }
                &&& page.router.base_path == services.books.state.config.base_path
            },
            Err(e) => match services.tables().book(id as int) {
                None => e == (AppStateError::Book { source: BookError::NotFound { id } }),
                Some(b) => {
                    &&& e matches AppStateError::User { source: UserError::NotFound { id: missing } }
                    &&& services.tables().user(missing as int) is None
                    &&& if services.tables().user(b.owner_id) is None {
                        missing == b.owner_id
                    } else {
                        b.current_holder_id == Some(missing as int)
                    }
                },
            },
        },
{
    let book = match services.books.find_by_id(id) {
        Ok(book) => book,
        Err(source) => {
            return Err(AppStateError::Book { source });
        },
    };
    let owner = match services.find_by_id(book.owner_id) {
        Ok(owner) => owner,
        Err(source) => {
            return Err(AppStateError::User { source });
        },
    };
    let current_holder = match book.current_holder_id {
        Some(current_holder_id) => match services.find_by_id(current_holder_id) {
            Ok(holder) => Some(holder),
            Err(source) => {
                return Err(AppStateError::User { source });
            },
        },
        None => None,
    };
    Ok(
        ShowBookTemplate {
            book,
            owner,
            current_holder,
            router: Router { base_path: services.books.state.config.base_path.clone() },
        },
    )
}

/// Adds the book that `form` describes and sends the browser to the book list.
pub fn create(services: &mut UserOperator, form: BookForm) -> (r: Result<Redirect, AppStateError>)
    ensures
        final(services).books.state.config == old(services).books.state.config,
        match r {
            Ok(next) => {
                &&& old(services).tables().insert_book_violation(form) is None
                &&& final(services).tables() == old(services).tables().insert_book(form)
                &&& next.to@ == "/"@
            },
            Err(e) => {
                &&& old(services).tables().insert_book_violation(form) is Some
                &&& e == (AppStateError::Book {
                    source: BookError::DB {
                        source: old(services).tables().insert_book_violation(form)->0,
                    },
                })
                &&& final(services).tables() == old(services).tables()
            },
        },
{
    match services.books.create(form) {
        Ok(_) => Ok(Redirect { to: String::from_str("/") }),
        Err(source) => Err(AppStateError::Book { source }),
    }
}

/// The form for a new book: every user, to pick the owner and the holder from.
pub fn new(services: &UserOperator) -> (r: Result<NewBookTemplate, AppStateError>)
    ensures
        r is Ok,
        r->Ok_0.users.deep_view() == services.tables().users,
        r->Ok_0.router.base_path == services.books.state.config.base_path,
{
    let users = match services.all() {
        Ok(users) => users,
        Err(source) => {
            return Err(AppStateError::User { source });
        },
    };
    Ok(
        NewBookTemplate {
            users,
            router: Router { base_path: services.books.state.config.base_path.clone() },
        },
    )
}

/// The form that changes the book `id`: the book and every user. Without such
/// a book the answer is `NotFound`.
pub fn edit(services: &UserOperator, id: i32) -> (r: Result<EditBookTemplate, AppStateError>)
    ensures
        match r {
            Ok(page) => {
                &&& services.tables().book(id as int) == Some(page.book@)
                &&& page.users.deep_view() == services.tables().users
                &&& page.router.base_path == services.books.state.config.base_path
            },
            Err(e) => {
                &&& services.tables().book(id as int) is None
                &&& e == (AppStateError::Book { source: BookError::NotFound { id } })
            },
        },
{
    let users = match services.all() {
        Ok(users) => users,
        Err(source) => {
            return Err(AppStateError::User { source });
        },
    };
    let book = match services.books.find_by_id(id) {
        Ok(book) => book,
        Err(source) => {
            return Err(AppStateError::Book { source });
        },
    };
    Ok(
        EditBookTemplate {
            users,
            book,
            router: Router { base_path: services.books.state.config.base_path.clone() },
        },
    )
}

/// Replaces every column of the book `id` by the form's and sends the
/// browser to the page of that book.
pub fn update(services: &mut UserOperator, id: i32, form: BookForm) -> (r: Result<
    Redirect,
    AppStateError,
>)
    ensures
        final(services).books.state.config == old(services).books.state.config,
        match r {
            Ok(next) => {
                &&& old(services).tables().update_book_violation(form.row(id as int)) is None
                &&& final(services).tables() == old(services).tables().update_book(
                    form.row(id as int),
                )
                &&& next.to@ == "/books/"@ + decimal(id as int)
            },
            Err(e) => {
                &&& final(services).tables() == old(services).tables()
                &&& if old(services).tables().book(id as int) is None {
                    e == (AppStateError::Book { source: BookError::NotFound { id } })
                } else {
                    &&& book_violation(old(services).tables().users, form.row(id as int)) is Some
                    &&& e == (AppStateError::Book {
                        source: BookError::DB {
                            source: book_violation(
                                old(services).tables().users,
                                form.row(id as int),
                            )->0,
                        },
                    })
                }
            },
        },
{
    match services.books.update(id, form) {
        Ok(_) => {
            let mut to = String::from_str("/books/");
            push_decimal(&mut to, id as i64);
            Ok(Redirect { to })
        },
        Err(source) => Err(AppStateError::Book { source }),
    }
}

/// Removes the book `id` and sends the browser to the book list.
pub fn delete(services: &mut UserOperator, id: i32) -> (r: Result<Redirect, AppStateError>)
    ensures
        final(services).books.state.config == old(services).books.state.config,
        match r {
            Ok(next) => {
                &&& old(services).tables().book(id as int) is Some
                &&& final(services).tables() == old(services).tables().delete_book(id as int)
                &&& next.to@ == "/"@
            },
            Err(e) => {
                &&& old(services).tables().book(id as int) is None
                &&& e == (AppStateError::Book { source: BookError::NotFound { id } })
                &&& final(services).tables() == old(services).tables()
            },
        },
{
    match services.books.delete(id) {
        Ok(_) => Ok(Redirect { to: String::from_str("/") }),
        Err(source) => Err(AppStateError::Book { source }),
    }
}

/// The first record of an exported table: the names of the columns.
pub open spec fn export_header() -> Seq<Seq<char>> {
    seq![
        "ID"@,
        "Title"@,
        "Author(s)"@,
        "Description"@,
        "Owner"@,
        "Current Holder"@,
        "Comment"@,
    ]
}

/// How a user is shown in an exported table: the name and the identifier, or
/// a dash where there is no such user.
pub open spec fn user_label(user: Option<UserView>) -> Seq<char> {
    match user {
        Some(u) => u.name + " (id: "@ + decimal(u.id) + ")"@,
        None => "-"@,
    }
}

/// An optional text, empty where it is absent.
pub open spec fn text_or_empty(text: Option<Seq<char>>) -> Seq<char> {
    match text {
        Some(t) => t,
        None => Seq::empty(),
    }
}

/// The record of one book in an exported table.
pub open spec fn export_record(b: BookView, users: Seq<UserView>) -> Seq<Seq<char>> {
    seq![
        decimal(b.id),
        b.title,
        b.authors,
        text_or_empty(b.description),
        user_label(find(users, b.owner_id)),
        user_label(holder_of(users, b)),
        text_or_empty(b.comment),
    ]
}

/// The exported table: the header, then one record for each book in the
/// order given.
pub open spec fn export_table(books: Seq<BookView>, users: Seq<UserView>) -> Seq<Seq<Seq<char>>> {
    seq![export_header()] + Seq::new(books.len(), |i: int| export_record(books[i], users))
}

/// How a user is shown in an exported table.
pub fn label_user(user: &Option<UserModel>) -> (r: String)
    ensures
        r@ == user_label(user.deep_view()),
{
    match user {
        Some(u) => {
            let mut r = u.name.clone();
            r.append(" (id: ");
            push_decimal(&mut r, u.id as i64);
            r.append(")");
            r
        },
        None => String::from_str("-"),
    }
}

/// An optional text, empty where it is absent.
pub fn unwrap_text(text: &Option<String>) -> (r: String)
    ensures
        r@ == text_or_empty(text.deep_view()),
{
    match text {
        Some(t) => t.clone(),
        None => String::new(),
    }
}

/// The exported table: the header, then one record for each book in the
/// order given, with the owner and the holder looked up among `users`.
pub fn export_rows(books: &Vec<BookModel>, users: &Vec<UserModel>) -> (r: Vec<Vec<String>>)
    ensures
        r.deep_view() == export_table(books.deep_view(), users.deep_view()),
{
    let ghost bs = books.deep_view();
    let ghost us = users.deep_view();
    let mut header: Vec<String> = Vec::new();
    header.push(String::from_str("ID"));
    header.push(String::from_str("Title"));
    header.push(String::from_str("Author(s)"));
    header.push(String::from_str("Description"));
    header.push(String::from_str("Owner"));
    header.push(String::from_str("Current Holder"));
    header.push(String::from_str("Comment"));
    assert(header.deep_view() =~= export_header());
    let users_by_id = users_by_id(users);
    let mut out: Vec<Vec<String>> = Vec::new();
    out.push(header);
    assert(out.deep_view() =~= export_table(bs.take(0), us));
    let mut i: usize = 0;
    while i < books.len()
        invariant
            i <= books.len(),
            bs == books.deep_view(),
            us == users.deep_view(),
            indexes(users_by_id@, us),
            out.deep_view() == export_table(bs.take(i as int), us),
        decreases books.len() - i,
    {
        let ghost before = out.deep_view();
        let book = &books[i];
        let owner = find_user(&users_by_id, book.owner_id);
        let holder = find_holder(&users_by_id, book);
        let mut record: Vec<String> = Vec::new();
        record.push(decimal_string(book.id as i64));
        record.push(book.title.clone());
        record.push(book.authors.clone());
        record.push(unwrap_text(&book.description));
        record.push(label_user(&owner));
        record.push(label_user(&holder));
        record.push(unwrap_text(&book.comment));
        assert(record.deep_view() =~= export_record(bs[i as int], us));
        out.push(record);
        assert(out.deep_view() =~= before.push(export_record(bs[i as int], us)));
        i += 1;
        assert(out.deep_view() =~= export_table(bs.take(i as int), us));
    }
    assert(bs.take(i as int) =~= bs);
    out
}

/// Every record of an exported table has the seven fields of the header.
pub proof fn lemma_export_table_even(books: Seq<BookView>, users: Seq<UserView>)
    ensures
        even(export_table(books, users)),
{
    let table = export_table(books, users);
    assert forall|i: int| 0 <= i < table.len() implies (#[trigger] table[i]).len()
        == table[0].len() by {
        assert(table[0] == export_header());
        if i > 0 {
            assert(table[i] == export_record(books[i - 1], users));
        }
    }
}

/// Every book that passes the query, newest first and on one sheet, as
/// comma-separated values: the bytes of the exported table. A book without a
/// holder, or with a holder or an owner who is no user, is exported with a
/// dash in that column, and the export goes through all the same.
pub fn download_csv(services: &UserOperator, query: IndexQuery) -> (r: Result<
    Vec<u8>,
    AppStateError,
>)
    ensures
        r is Ok,
        r->Ok_0@ == csv_bytes(
            export_table(listing(services.tables().books, Some(query)), services.tables().users),
        ),
{
    let books = match services.books.all_filtered(Some(query)) {
        Ok(books) => books,
        Err(source) => {
            return Err(AppStateError::Book { source });
        },
    };
    let users = match services.all() {
        Ok(users) => users,
        Err(source) => {
            return Err(AppStateError::User { source });
        },
    };
    let rows = export_rows(&books, &users);
    proof {
        lemma_export_table_even(books.deep_view(), users.deep_view());
    }
    encode(&rows)
}

} // verus!
