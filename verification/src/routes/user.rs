//! The user pages.

use crate::models::book::{clone_text, held_by, owned_by, BookView, Model as BookModel};
use crate::models::user::{cascade, Model, UserError, UserOperator, UserView};
use crate::routes::Redirect;
use crate::state::database::name_violation;
use crate::state::error::AppStateError;
use crate::state::table::{lemma_filter_push, lemma_filter_reverse_len};
use crate::text::contains;
use std::collections::HashMap;
use vstd::prelude::*;
use vstd::std_specs::hash::group_hash_axioms;
use vstd::string::StringExecFns;

verus! {

/// What the user list can be narrowed by.
#[derive(Debug, PartialEq, Eq)]
pub struct IndexQuery {
    pub name: Option<String>,
}

impl Clone for IndexQuery {
    fn clone(&self) -> (r: Self)
        ensures
            r == *self,
    {
        IndexQuery { name: clone_text(&self.name) }
    }
}

impl IndexQuery {
    /// `u` passes the query: the name holds the text given, where one is given.
    pub open spec fn matches(self, u: UserView) -> bool {
        self.name matches Some(n) ==> contains(u.name, n@)
    }

    /// `matches` as a predicate, for `Seq::filter`.
    pub open spec fn selects(self) -> spec_fn(UserView) -> bool {
        |u: UserView| self.matches(u)
    }
}

/// What a user is made or changed from.
#[derive(Debug, PartialEq, Eq)]
pub struct UserForm {
    pub name: String,
}

/// A user with the number of books they own and the number they hold.
#[derive(Debug, PartialEq, Eq)]
pub struct UserWithBookNumber {
    /// The user.
    pub user: Model,
    /// The number of books that belong to this user.
    pub owner_book_number: usize,
    /// The number of books that this user holds.
    pub borrowed_book_number: usize,
}

/// A user with their numbers as the contracts see it.
pub struct UserWithBookNumberView {
    pub user: UserView,
    pub owner_book_number: int,
    pub borrowed_book_number: int,
}

impl View for UserWithBookNumber {
    type V = UserWithBookNumberView;

    open spec fn view(&self) -> UserWithBookNumberView {
        UserWithBookNumberView {
            user: self.user@,
            owner_book_number: self.owner_book_number as int,
            borrowed_book_number: self.borrowed_book_number as int,
        }
    }
}

impl DeepView for UserWithBookNumber {
    type V = UserWithBookNumberView;

    open spec fn deep_view(&self) -> UserWithBookNumberView {
        self@
    }
}

/// The user list page.
#[derive(Debug, PartialEq, Eq)]
pub struct UsersIndexTemplate {
    pub users_with_books_number: Vec<UserWithBookNumber>,
    pub query: IndexQuery,
}

/// The form that changes a user.
#[derive(Debug, PartialEq, Eq)]
pub struct EditTemplate {
    pub user: Model,
}

/// The form for a new user.
#[derive(Debug, PartialEq, Eq)]
pub struct NewTemplate {}

/// Each user of `users` with the number of books of `books` that they own and
/// the number that they hold.
pub open spec fn with_book_numbers(users: Seq<UserView>, books: Seq<BookView>) -> Seq<
    UserWithBookNumberView,
> {
    Seq::new(
        users.len(),
        |i: int|
            UserWithBookNumberView {
                user: users[i],
                owner_book_number: books.filter(owned_by(users[i].id)).len() as int,
                borrowed_book_number: books.filter(held_by(users[i].id)).len() as int,
            },
    )
}

/// The number that `counts` holds for the user `id`: none where it holds nothing.
pub open spec fn count_in(counts: Map<i32, usize>, id: i32) -> int {
    if counts.contains_key(id) {
        counts[id] as int
    } else {
        0
    }
}

/// The number that `counts` holds for the user `id`: none where it holds nothing.
pub fn count_of(counts: &HashMap<i32, usize>, id: i32) -> (n: usize)
    ensures
        n == count_in(counts@, id),
{
    broadcast use group_hash_axioms;

    match counts.get(&id) {
        Some(n) => *n,
        None => 0,
    }
}

/// For each user, the number of books of `books` that belong to them.
pub fn count_by_owner(books: &Vec<BookModel>) -> (counts: HashMap<i32, usize>)
    ensures
        forall|id: i32| #[trigger]
            count_in(counts@, id) == books.deep_view().filter(owned_by(id as int)).len(),
{
    broadcast use group_hash_axioms;

    let ghost bs = books.deep_view();
    let mut counts: HashMap<i32, usize> = HashMap::new();
    let mut i: usize = 0;
    assert forall|id: i32| #[trigger]
        count_in(counts@, id) == bs.take(0).filter(owned_by(id as int)).len() by {
        reveal(Seq::filter);
    }
    while i < books.len()
        invariant
            i <= books.len(),
            bs == books.deep_view(),
            forall|id: i32| #[trigger]
                count_in(counts@, id) == bs.take(i as int).filter(owned_by(id as int)).len(),
        decreases books.len() - i,
    {
        let ghost before = counts@;
        let owner = books[i].owner_id;
        let n = count_of(&counts, owner);
        proof {
            bs.take(i as int).lemma_filter_len(owned_by(owner as int));
        }
        counts.insert(owner, n + 1);
        proof {
            assert(bs.take(i + 1) =~= bs.take(i as int).push(bs[i as int]));
            assert forall|id: i32| #[trigger]
                count_in(counts@, id) == bs.take(i + 1).filter(owned_by(id as int)).len() by {
                lemma_filter_push(bs.take(i as int), bs[i as int], owned_by(id as int));
                assert(count_in(before, id) == bs.take(i as int).filter(
                    owned_by(id as int),
                ).len());
            }
        }
        i += 1;
    }
    assert(bs.take(i as int) =~= bs);
    counts
}

/// For each user, the number of books of `books` that they hold.
pub fn count_by_holder(books: &Vec<BookModel>) -> (counts: HashMap<i32, usize>)
    ensures
        forall|id: i32| #[trigger]
            count_in(counts@, id) == books.deep_view().filter(held_by(id as int)).len(),
{
    broadcast use group_hash_axioms;

    let ghost bs = books.deep_view();
    let mut counts: HashMap<i32, usize> = HashMap::new();
    let mut i: usize = 0;
    assert forall|id: i32| #[trigger]
        count_in(counts@, id) == bs.take(0).filter(held_by(id as int)).len() by {
        reveal(Seq::filter);
    }
    while i < books.len()
        invariant
            i <= books.len(),
            bs == books.deep_view(),
            forall|id: i32| #[trigger]
                count_in(counts@, id) == bs.take(i as int).filter(held_by(id as int)).len(),
        decreases books.len() - i,
    {
        let ghost before = counts@;
        if let Some(current_holder_id) = books[i].current_holder_id {
            let n = count_of(&counts, current_holder_id);
            proof {
                bs.take(i as int).lemma_filter_len(held_by(current_holder_id as int));
            }
            counts.insert(current_holder_id, n + 1);
        }
        proof {
            assert(bs.take(i + 1) =~= bs.take(i as int).push(bs[i as int]));
            assert forall|id: i32| #[trigger]
                count_in(counts@, id) == bs.take(i + 1).filter(held_by(id as int)).len() by {
                lemma_filter_push(bs.take(i as int), bs[i as int], held_by(id as int));
                assert(count_in(before, id) == bs.take(i as int).filter(held_by(id as int)).len());
            }
        }
        i += 1;
    }
    assert(bs.take(i as int) =~= bs);
    counts
}

/// The user list: the users that pass the query, oldest first, each with the
/// number of books they own and the number they hold.
pub fn index(services: &UserOperator, query: IndexQuery) -> (r: Result<
    UsersIndexTemplate,
    AppStateError,
>)
    ensures
        r is Ok,
        r->Ok_0.users_with_books_number.deep_view() == with_book_numbers(
            services.tables().users.filter(query.selects()),
            services.tables().books,
        ),
        r->Ok_0.query == query,
{
    let users = match services.all_filtered(query.clone()) {
        Ok(users) => users,
        Err(source) => {
            return Err(AppStateError::User { source });
        },
    };
    let books = match services.books.all() {
        Ok(books) => books,
        Err(source) => {
            return Err(AppStateError::Book { source });
        },
    };
    let ghost us = users.deep_view();
    let ghost bs = services.tables().books;
    let owner_books = count_by_owner(&books);
    let borrowed_books = count_by_holder(&books);
    let mut result: Vec<UserWithBookNumber> = Vec::new();
    let mut i: usize = 0;
    while i < users.len()
        invariant
            i <= users.len(),
            us == users.deep_view(),
            bs.reverse() == books.deep_view(),
            forall|id: i32| #[trigger]
                count_in(owner_books@, id) == books.deep_view().filter(owned_by(id as int)).len(),
            forall|id: i32| #[trigger]
                count_in(borrowed_books@, id) == books.deep_view().filter(
                    held_by(id as int),
                ).len(),
            result.len() == i,
            forall|k: int| 0 <= k < i ==> (#[trigger] result@[k])@ == with_book_numbers(us, bs)[k],
        decreases users.len() - i,
    {
        proof {
            lemma_filter_reverse_len(bs, owned_by(us[i as int].id));
            lemma_filter_reverse_len(bs, held_by(us[i as int].id));
        }
        let owner_book_number = count_of(&owner_books, users[i].id);
        let borrowed_book_number = count_of(&borrowed_books, users[i].id);
        result.push(
            UserWithBookNumber { user: users[i].clone(), owner_book_number, borrowed_book_number },
        );
        i += 1;
    }
    assert(result.deep_view() =~= with_book_numbers(us, bs));
    Ok(UsersIndexTemplate { users_with_books_number: result, query })
}

/// Adds a user of the form's name and sends the browser to the user list.
pub fn create(services: &mut UserOperator, form: UserForm) -> (r: Result<Redirect, AppStateError>)
    ensures
        final(services).books.state.config == old(services).books.state.config,
        match r {
            Ok(next) => {
                &&& old(services).tables().insert_user_violation(form.name@) is None
                &&& final(services).tables() == old(services).tables().insert_user(form.name@)
                &&& next.to@ == "/users"@
            },
            Err(e) => {
                &&& old(services).tables().insert_user_violation(form.name@) is Some
                &&& e == (AppStateError::User {
                    source: UserError::DB {
                        source: old(services).tables().insert_user_violation(form.name@)->0,
                    },
                })
                &&& final(services).tables() == old(services).tables()
            },
        },
{
    match services.create(form) {
        Ok(_) => Ok(Redirect { to: String::from_str("/users") }),
        Err(source) => Err(AppStateError::User { source }),
    }
}

/// Replaces the name of the user `id` by the form's and sends the browser to
/// the user list.
pub fn update(services: &mut UserOperator, id: i32, form: UserForm) -> (r: Result<
    Redirect,
    AppStateError,
>)
    ensures
        final(services).books.state.config == old(services).books.state.config,
        match r {
            Ok(next) => {
                &&& old(services).tables().user(id as int) is Some
                &&& name_violation(form.name@) is None
                &&& final(services).tables() == old(services).tables().update_user(
                    UserView { id: id as int, name: form.name@ },
                )
                &&& next.to@ == "/users"@
            },
            Err(e) => {
                &&& final(services).tables() == old(services).tables()
                &&& if old(services).tables().user(id as int) is None {
                    e == (AppStateError::User { source: UserError::NotFound { id } })
                } else {
                    &&& name_violation(form.name@) is Some
                    &&& e == (AppStateError::User {
                        source: UserError::DB { source: name_violation(form.name@)->0 },
                    })
                }
            },
        },
{
    match services.update(id, form) {
        Ok(_) => Ok(Redirect { to: String::from_str("/users") }),
        Err(source) => Err(AppStateError::User { source }),
    }
}

/// Removes the user `id` with the books they own, puts the books they hold
/// back on their owners' shelves, and sends the browser to the user list.
pub fn delete(services: &mut UserOperator, id: i32) -> (r: Result<Redirect, AppStateError>)
    ensures
        final(services).books.state.config == old(services).books.state.config,
        match r {
            Ok(next) => {
                &&& old(services).tables().user(id as int) is Some
                &&& final(services).tables() == cascade(old(services).tables(), id as int)
                &&& next.to@ == "/users"@
            },
            Err(e) => {
                &&& old(services).tables().user(id as int) is None
                &&& e == (AppStateError::User { source: UserError::NotFound { id } })
                &&& final(services).tables() == old(services).tables()
            },
        },
{
    match services.delete(id) {
        Ok(_) => Ok(Redirect { to: String::from_str("/users") }),
        Err(source) => Err(AppStateError::User { source }),
    }
}

/// The form that changes the user `id`. Without such a user the answer is
/// `NotFound`.
pub fn edit(services: &UserOperator, id: i32) -> (r: Result<EditTemplate, AppStateError>)
    ensures
        match r {
            Ok(page) => services.tables().user(id as int) == Some(page.user@),
            Err(e) => {
                &&& services.tables().user(id as int) is None
                &&& e == (AppStateError::User { source: UserError::NotFound { id } })
            },
        },
{
    match services.find_by_id(id) {
        Ok(user) => Ok(EditTemplate { user }),
        Err(source) => Err(AppStateError::User { source }),
    }
}

/// The form for a new user.
pub fn new() -> NewTemplate {
    NewTemplate {  }
}

} // verus!
