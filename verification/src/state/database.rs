//! The store: a user table and a book table, each in ascending order of
//! identifier, with the constraints that every write is held to.

use crate::models::book::{self, BookView, Order};
use crate::models::user::{self, UserView};
use crate::routes::book::BookForm;
use crate::routes::user::UserForm;
use crate::state::table::{
    ascending, bounded, find, index_of, last_key, lemma_ascending_bounded, lemma_ascending_push,
    lemma_ascending_removed, lemma_ascending_replaced, lemma_filter_push, lemma_find_push,
    lemma_find_removed, lemma_find_replaced, lemma_index_of, lemma_replaced_keys,
    lemma_stepwise_ascending, removed, replaced,
};
use vstd::prelude::*;

verus! {

/// Why the store turned a request down.
#[derive(Debug, Clone, Copy, PartialEq, Eq, Structural)]
pub enum DbErr {
    /// A title, an author line or a name would be empty.
    Check,
    /// A book would name a user that the user table does not hold, or a user
    /// that a book still names would leave the table.
    ForeignKey,
    /// Rows were handed over that do not come in strictly ascending order of
    /// identifier.
    PrimaryKey,
    /// The table has handed out its last identifier.
    IdExhausted,
    /// The row to update is not in the table.
    RecordNotUpdated,
}

/// What a deletion did.
#[derive(Debug, Clone, Copy, PartialEq, Eq, Structural)]
pub struct DeleteResult {
    pub rows_affected: u64,
}

/// The largest identifier a table can hand out.
pub open spec fn max_id() -> int {
    0x7fff_ffff
}

/// `b` belongs to `user_id` or is held by them.
pub open spec fn names(b: BookView, user_id: int) -> bool {
    b.owner_id == user_id || b.current_holder_id == Some(user_id)
}

/// The constraint on a user's columns that `name` breaks, if any.
pub open spec fn name_violation(name: Seq<char>) -> Option<DbErr> {
    if name.len() == 0 {
        Some(DbErr::Check)
    } else {
        None
    }
}

/// The constraint that the book `b` breaks beside the users `users`, if any:
/// an empty title or author line first, then an owner or a holder that is not
/// a user.
pub open spec fn book_violation(users: Seq<UserView>, b: BookView) -> Option<DbErr> {
    if b.title.len() == 0 || b.authors.len() == 0 {
        Some(DbErr::Check)
    } else if find(users, b.owner_id) is None {
        Some(DbErr::ForeignKey)
    } else if b.current_holder_id is Some && find(users, b.current_holder_id->0) is None {
        Some(DbErr::ForeignKey)
    } else {
        None
    }
}

/// The two tables and the last identifier each has handed out.
pub struct Tables {
    pub users: Seq<UserView>,
    pub books: Seq<BookView>,
    pub last_user_id: int,
    pub last_book_id: int,
}

impl Tables {
    /// Two empty tables that have handed out no identifier.
    pub open spec fn empty() -> Tables {
        Tables { users: Seq::empty(), books: Seq::empty(), last_user_id: 0, last_book_id: 0 }
    }

    /// The user of identifier `id`.
    pub open spec fn user(self, id: int) -> Option<UserView> {
        find(self.users, id)
    }

    /// The book of identifier `id`.
    pub open spec fn book(self, id: int) -> Option<BookView> {
        find(self.books, id)
    }

    /// Some book belongs to `user_id` or is held by them.
    pub open spec fn referenced(self, user_id: int) -> bool {
        exists|i: int| 0 <= i < self.books.len() && names(#[trigger] self.books[i], user_id)
    }

    /// Every book names users that exist, as owner and as holder.
    pub open spec fn references_resolve(self) -> bool {
        forall|i: int|
            0 <= i < self.books.len() ==> {
                &&& self.user((#[trigger] self.books[i]).owner_id) is Some
                &&& self.books[i].current_holder_id is Some ==> self.user(
                    self.books[i].current_holder_id->0,
                ) is Some
            }
    }

    /// The tables are in order, no row has an identifier that was not handed
    /// out, and every row meets every constraint.
    pub open spec fn wf(self) -> bool {
        &&& 0 <= self.last_user_id
        &&& 0 <= self.last_book_id
        &&& ascending(self.users)
        &&& bounded(self.users, self.last_user_id)
        &&& ascending(self.books)
        &&& bounded(self.books, self.last_book_id)
        &&& forall|i: int|
            0 <= i < self.users.len() ==> name_violation((#[trigger] self.users[i]).name) is None
        &&& forall|i: int|
            0 <= i < self.books.len() ==> book_violation(self.users, #[trigger] self.books[i])
                is None
    }

    /// Why a user of this name cannot be inserted, if it cannot.
    pub open spec fn insert_user_violation(self, name: Seq<char>) -> Option<DbErr> {
        if name_violation(name) is Some {
            name_violation(name)
        } else if self.last_user_id >= max_id() {
            Some(DbErr::IdExhausted)
        } else {
            None
        }
    }

    /// Why the book that `form` describes cannot be inserted, if it cannot.
    pub open spec fn insert_book_violation(self, form: BookForm) -> Option<DbErr> {
        if book_violation(self.users, form.row(0)) is Some {
            book_violation(self.users, form.row(0))
        } else if self.last_book_id >= max_id() {
            Some(DbErr::IdExhausted)
        } else {
            None
        }
    }

    /// Why the user of `u`'s identifier cannot be replaced by `u`, if it cannot:
    /// there is no such user, or the new name breaks a constraint.
    pub open spec fn update_user_violation(self, u: UserView) -> Option<DbErr> {
        if self.user(u.id) is None {
            Some(DbErr::RecordNotUpdated)
        } else {
            name_violation(u.name)
        }
    }

    /// Why the book of `b`'s identifier cannot be replaced by `b`, if it cannot:
    /// there is no such book, or the new row breaks a constraint.
    pub open spec fn update_book_violation(self, b: BookView) -> Option<DbErr> {
        if self.book(b.id) is None {
            Some(DbErr::RecordNotUpdated)
        } else {
            book_violation(self.users, b)
        }
    }

    /// The tables after a user of this name was inserted under the next identifier.
    pub open spec fn insert_user(self, name: Seq<char>) -> Tables {
        Tables {
            users: self.users.push(UserView { id: self.last_user_id + 1, name }),
            last_user_id: self.last_user_id + 1,
            ..self
        }
    }

    /// The tables after the book that `form` describes was inserted under the
    /// next identifier.
    pub open spec fn insert_book(self, form: BookForm) -> Tables {
        Tables {
            books: self.books.push(form.row(self.last_book_id + 1)),
            last_book_id: self.last_book_id + 1,
            ..self
        }
    }

    /// The tables after the user of `u`'s identifier was replaced by `u`.
    pub open spec fn update_user(self, u: UserView) -> Tables {
        Tables { users: replaced(self.users, u), ..self }
    }

    /// The tables after the book of `b`'s identifier was replaced by `b`.
    pub open spec fn update_book(self, b: BookView) -> Tables {
        Tables { books: replaced(self.books, b), ..self }
    }

    /// The tables after the user of identifier `id` was removed.
    pub open spec fn delete_user(self, id: int) -> Tables {
        Tables { users: removed(self.users, id), ..self }
    }

    /// The tables after the book of identifier `id` was removed.
    pub open spec fn delete_book(self, id: int) -> Tables {
        Tables { books: removed(self.books, id), ..self }
    }
}

/// Every text column that must not be empty holds something.
pub open spec fn texts_present(users: Seq<UserView>, books: Seq<BookView>) -> bool {
    &&& forall|i: int| 0 <= i < users.len() ==> (#[trigger] users[i]).name.len() > 0
    &&& forall|i: int|
        0 <= i < books.len() ==> (#[trigger] books[i]).title.len() > 0 && books[i].authors.len()
            > 0
}

/// The tables that hold exactly the rows given.
pub open spec fn loaded(users: Seq<UserView>, books: Seq<BookView>) -> Tables {
    Tables { users, books, last_user_id: last_key(users), last_book_id: last_key(books) }
}

/// Why the rows given cannot be taken as tables, if they cannot: first a
/// table out of order, then an empty text, then a book that names a user who
/// is not among the users.
pub open spec fn load_violation(users: Seq<UserView>, books: Seq<BookView>) -> Option<DbErr> {
    if !ascending(users) || !ascending(books) {
        Some(DbErr::PrimaryKey)
    } else if !texts_present(users, books) {
        Some(DbErr::Check)
    } else if !loaded(users, books).references_resolve() {
        Some(DbErr::ForeignKey)
    } else {
        None
    }
}

/// Rows that break no constraint make well-formed tables.
pub proof fn lemma_loaded_wf(users: Seq<UserView>, books: Seq<BookView>)
    requires
        load_violation(users, books) is None,
    ensures
        loaded(users, books).wf(),
{
    let t = loaded(users, books);
    lemma_ascending_bounded(users);
    lemma_ascending_bounded(books);
    assert forall|i: int| 0 <= i < t.books.len() implies book_violation(
        t.users,
        #[trigger] t.books[i],
    ) is None by {
        assert(t.user(t.books[i].owner_id) is Some);
    }
}

/// An accepted user insert leaves the tables well-formed.
pub proof fn lemma_insert_user_wf(t: Tables, name: Seq<char>)
    requires
        t.wf(),
        name_violation(name) is None,
    ensures
        t.insert_user(name).wf(),
{
    let u = UserView { id: t.last_user_id + 1, name };
    let next = t.insert_user(name);
    lemma_ascending_push(t.users, u, t.last_user_id);
    assert forall|i: int| 0 <= i < next.books.len() implies book_violation(
        next.users,
        #[trigger] next.books[i],
    ) is None by {
        let b = t.books[i];
        assert(book_violation(t.users, b) is None);
        lemma_find_push(t.users, u, b.owner_id);
        if b.current_holder_id is Some {
            lemma_find_push(t.users, u, b.current_holder_id->0);
        }
    }
}

/// An accepted user update leaves the tables well-formed.
pub proof fn lemma_update_user_wf(t: Tables, u: UserView)
    requires
        t.wf(),
        name_violation(u.name) is None,
    ensures
        t.update_user(u).wf(),
{
    let next = t.update_user(u);
    lemma_ascending_replaced(t.users, u, t.last_user_id);
    lemma_replaced_keys(t.users, u);
    assert forall|i: int| 0 <= i < next.users.len() implies name_violation(
        (#[trigger] next.users[i]).name,
    ) is None by {
        assert(name_violation(t.users[i].name) is None);
    }
    assert forall|i: int| 0 <= i < next.books.len() implies book_violation(
        next.users,
        #[trigger] next.books[i],
    ) is None by {
        let b = t.books[i];
        assert(book_violation(t.users, b) is None);
        lemma_find_replaced(t.users, u, b.owner_id);
        if b.current_holder_id is Some {
            lemma_find_replaced(t.users, u, b.current_holder_id->0);
        }
    }
}

/// Removing a user that no book names leaves the tables well-formed.
pub proof fn lemma_delete_user_wf(t: Tables, id: int)
    requires
        t.wf(),
        !t.referenced(id),
    ensures
        t.delete_user(id).wf(),
{
    let next = t.delete_user(id);
    lemma_ascending_removed(t.users, id, t.last_user_id);
    lemma_index_of(t.users, id);
    assert forall|i: int| 0 <= i < next.users.len() implies name_violation(
        (#[trigger] next.users[i]).name,
    ) is None by {
        if let Some(k) = index_of(t.users, id) {
            let a = if i < k { i } else { i + 1 };
            assert(next.users[i] == t.users[a]);
            assert(name_violation(t.users[a].name) is None);
        } else {
            assert(name_violation(t.users[i].name) is None);
        }
    }
    assert forall|i: int| 0 <= i < next.books.len() implies book_violation(
        next.users,
        #[trigger] next.books[i],
    ) is None by {
        let b = t.books[i];
        assert(book_violation(t.users, b) is None);
        assert(!names(b, id));
        lemma_find_removed(t.users, id, b.owner_id);
        if b.current_holder_id is Some {
            lemma_find_removed(t.users, id, b.current_holder_id->0);
        }
    }
}

/// An accepted book insert leaves the tables well-formed.
pub proof fn lemma_insert_book_wf(t: Tables, form: BookForm)
    requires
        t.wf(),
        book_violation(t.users, form.row(0)) is None,
    ensures
        t.insert_book(form).wf(),
{
    let b = form.row(t.last_book_id + 1);
    let next = t.insert_book(form);
    lemma_ascending_push(t.books, b, t.last_book_id);
    assert forall|i: int| 0 <= i < next.books.len() implies book_violation(
        next.users,
        #[trigger] next.books[i],
    ) is None by {
        if i < t.books.len() {
            assert(book_violation(t.users, t.books[i]) is None);
        }
    }
}

/// An accepted book update leaves the tables well-formed.
pub proof fn lemma_update_book_wf(t: Tables, b: BookView)
    requires
        t.wf(),
        book_violation(t.users, b) is None,
    ensures
        t.update_book(b).wf(),
{
    let next = t.update_book(b);
    lemma_ascending_replaced(t.books, b, t.last_book_id);
    lemma_replaced_keys(t.books, b);
    assert forall|i: int| 0 <= i < next.books.len() implies book_violation(
        next.users,
        #[trigger] next.books[i],
    ) is None by {
        assert(book_violation(t.users, t.books[i]) is None);
    }
}

/// Removing a book leaves the tables well-formed.
pub proof fn lemma_delete_book_wf(t: Tables, id: int)
    requires
        t.wf(),
    ensures
        t.delete_book(id).wf(),
{
    let next = t.delete_book(id);
    lemma_ascending_removed(t.books, id, t.last_book_id);
    lemma_index_of(t.books, id);
    assert forall|i: int| 0 <= i < next.books.len() implies book_violation(
        next.users,
        #[trigger] next.books[i],
    ) is None by {
        if let Some(k) = index_of(t.books, id) {
            let a = if i < k { i } else { i + 1 };
            assert(next.books[i] == t.books[a]);
            assert(book_violation(t.users, t.books[a]) is None);
        } else {
            assert(book_violation(t.users, t.books[i]) is None);
        }
    }
}

/// In well-formed tables every book names users that exist.
pub proof fn lemma_wf_references_resolve(t: Tables)
    requires
        t.wf(),
    ensures
        t.references_resolve(),
{
    assert forall|i: int| 0 <= i < t.books.len() implies {
        &&& t.user((#[trigger] t.books[i]).owner_id) is Some
        &&& t.books[i].current_holder_id is Some ==> t.user(t.books[i].current_holder_id->0)
            is Some
    } by {
        assert(book_violation(t.users, t.books[i]) is None);
    }
}

/// `rows` in the order asked for: as the table holds them, or back to front.
pub open spec fn ordered<T>(rows: Seq<T>, order: Order) -> Seq<T> {
    match order {
        Order::Asc => rows,
        Order::Desc => rows.reverse(),
    }
}

/// Where the user of identifier `id` stands in `users`; with several, the last.
pub fn user_position(users: &Vec<user::Model>, id: i32) -> (r: Option<usize>)
    ensures
        match r {
            Some(i) => {
                &&& i < users.len()
                &&& users[i as int].id == id
                &&& index_of(users.deep_view(), id as int) == Some(i as int)
            },
            None => index_of(users.deep_view(), id as int) is None,
        },
{
    let ghost rows = users.deep_view();
    let mut i: usize = users.len();
    assert(rows.take(i as int) =~= rows);
    while i > 0
        invariant
            i <= users.len(),
            rows == users.deep_view(),
            index_of(rows, id as int) == index_of(rows.take(i as int), id as int),
        decreases i,
    {
        if users[i - 1].id == id {
            assert(rows.take(i as int).last() == rows[i - 1]);
            return Some(i - 1);
        }
        assert(rows.take(i as int).last() == rows[i - 1]);
        assert(rows.take(i as int).drop_last() =~= rows.take(i - 1));
        i -= 1;
    }
    None
}

/// Where the book of identifier `id` stands in `books`; with several, the last.
pub fn book_position(books: &Vec<book::Model>, id: i32) -> (r: Option<usize>)
    ensures
        match r {
            Some(i) => {
                &&& i < books.len()
                &&& books[i as int].id == id
                &&& index_of(books.deep_view(), id as int) == Some(i as int)
            },
            None => index_of(books.deep_view(), id as int) is None,
        },
{
    let ghost rows = books.deep_view();
    let mut i: usize = books.len();
    assert(rows.take(i as int) =~= rows);
    while i > 0
        invariant
            i <= books.len(),
            rows == books.deep_view(),
            index_of(rows, id as int) == index_of(rows.take(i as int), id as int),
        decreases i,
    {
        if books[i - 1].id == id {
            assert(rows.take(i as int).last() == rows[i - 1]);
            return Some(i - 1);
        }
        assert(rows.take(i as int).last() == rows[i - 1]);
        assert(rows.take(i as int).drop_last() =~= rows.take(i - 1));
        i -= 1;
    }
    None
}

/// `rows` back to front.
pub fn reverse_books(rows: Vec<book::Model>) -> (r: Vec<book::Model>)
    ensures
        r.deep_view() == rows.deep_view().reverse(),
{
    let ghost start = rows.deep_view();
    let mut rest = rows;
    let mut out: Vec<book::Model> = Vec::new();
    while rest.len() > 0
        invariant
            out.len() + rest.len() == start.len(),
            forall|k: int| 0 <= k < rest.len() ==> (#[trigger] rest@[k])@ == start[k],
            forall|k: int| 0 <= k < out.len() ==> (#[trigger] out@[k])@ == start[start.len() - 1 - k],
        decreases rest.len(),
    {
        if let Some(row) = rest.pop() {
            out.push(row);
        }
    }
    assert(out.deep_view() =~= start.reverse());
    out
}

fn users_ascending(users: &Vec<user::Model>) -> (r: bool)
    ensures
        r == ascending(users.deep_view()),
{
    let ghost rows = users.deep_view();
    proof {
        lemma_stepwise_ascending(rows);
    }
    let mut i: usize = 1;
    while i < users.len()
        invariant
            1 <= i,
            rows == users.deep_view(),
            forall|k: int| 0 <= k < i - 1 ==> (#[trigger] rows[k]).id < rows[k + 1].id,
        decreases users.len() - i,
    {
        if users[i - 1].id >= users[i].id {
            assert(!(rows[i - 1].id < rows[i - 1 + 1].id));
            return false;
        }
        i += 1;
    }
    true
}

fn books_ascending(books: &Vec<book::Model>) -> (r: bool)
    ensures
        r == ascending(books.deep_view()),
{
    let ghost rows = books.deep_view();
    proof {
        lemma_stepwise_ascending(rows);
    }
    let mut i: usize = 1;
    while i < books.len()
        invariant
            1 <= i,
            rows == books.deep_view(),
            forall|k: int| 0 <= k < i - 1 ==> (#[trigger] rows[k]).id < rows[k + 1].id,
        decreases books.len() - i,
    {
        if books[i - 1].id >= books[i].id {
            assert(!(rows[i - 1].id < rows[i - 1 + 1].id));
            return false;
        }
        i += 1;
    }
    true
}

fn texts_are_present(users: &Vec<user::Model>, books: &Vec<book::Model>) -> (r: bool)
    ensures
        r == texts_present(users.deep_view(), books.deep_view()),
{
    let ghost us = users.deep_view();
    let ghost bs = books.deep_view();
    let mut i: usize = 0;
    while i < users.len()
        invariant
            i <= users.len(),
            us == users.deep_view(),
            forall|k: int| 0 <= k < i ==> (#[trigger] us[k]).name.len() > 0,
        decreases users.len() - i,
    {
        if users[i].name.as_str().is_empty() {
            assert(us[i as int].name.len() == 0);
            return false;
        }
        i += 1;
    }
    let mut j: usize = 0;
    while j < books.len()
        invariant
            j <= books.len(),
            bs == books.deep_view(),
            forall|k: int|
                0 <= k < j ==> (#[trigger] bs[k]).title.len() > 0 && bs[k].authors.len() > 0,
        decreases books.len() - j,
    {
        if books[j].title.as_str().is_empty() || books[j].authors.as_str().is_empty() {
            assert(bs[j as int].title.len() == 0 || bs[j as int].authors.len() == 0);
            return false;
        }
        j += 1;
    }
    true
}

fn references_are_resolved(users: &Vec<user::Model>, books: &Vec<book::Model>) -> (r: bool)
    ensures
        r == loaded(users.deep_view(), books.deep_view()).references_resolve(),
{
    let ghost t = loaded(users.deep_view(), books.deep_view());
    let mut i: usize = 0;
    while i < books.len()
        invariant
            i <= books.len(),
            t == loaded(users.deep_view(), books.deep_view()),
            forall|k: int|
                0 <= k < i ==> {
                    &&& t.user((#[trigger] t.books[k]).owner_id) is Some
                    &&& t.books[k].current_holder_id is Some ==> t.user(
                        t.books[k].current_holder_id->0,
                    ) is Some
                },
        decreases books.len() - i,
    {
        if user_position(users, books[i].owner_id).is_none() {
            assert(t.user(t.books[i as int].owner_id) is None);
            return false;
        }
        if let Some(holder) = books[i].current_holder_id {
            if user_position(users, holder).is_none() {
                assert(t.user(t.books[i as int].current_holder_id->0) is None);
                return false;
            }
        }
        i += 1;
    }
    true
}

fn last_user_key(users: &Vec<user::Model>) -> (r: i32)
    ensures
        r == last_key(users.deep_view()),
{
    if users.len() > 0 && users[users.len() - 1].id > 0 {
        users[users.len() - 1].id
    } else {
        0
    }
}

fn last_book_key(books: &Vec<book::Model>) -> (r: i32)
    ensures
        r == last_key(books.deep_view()),
{
    if books.len() > 0 && books[books.len() - 1].id > 0 {
        books[books.len() - 1].id
    } else {
        0
    }
}

/// The store: users and books, each table in ascending order of identifier.
#[derive(Debug)]
pub struct Database {
    users: Vec<user::Model>,
    books: Vec<book::Model>,
    last_user_id: i32,
    last_book_id: i32,
}

impl View for Database {
    type V = Tables;

    closed spec fn view(&self) -> Tables {
        Tables {
            users: self.users.deep_view(),
            books: self.books.deep_view(),
            last_user_id: self.last_user_id as int,
            last_book_id: self.last_book_id as int,
        }
    }
}

fn copy_users(rows: &Vec<user::Model>) -> (r: Vec<user::Model>)
    ensures
        r.deep_view() == rows.deep_view(),
{
    let mut out: Vec<user::Model> = Vec::new();
    let mut i: usize = 0;
    while i < rows.len()
        invariant
            i <= rows.len(),
            out.len() == i,
            forall|k: int| 0 <= k < i ==> (#[trigger] out@[k])@ == rows@[k]@,
        decreases rows.len() - i,
    {
        out.push(rows[i].clone());
        i += 1;
    }
    assert(out.deep_view() =~= rows.deep_view());
    out
}

fn copy_books(rows: &Vec<book::Model>) -> (r: Vec<book::Model>)
    ensures
        r.deep_view() == rows.deep_view(),
{
    let mut out: Vec<book::Model> = Vec::new();
    let mut i: usize = 0;
    while i < rows.len()
        invariant
            i <= rows.len(),
            out.len() == i,
            forall|k: int| 0 <= k < i ==> (#[trigger] out@[k])@ == rows@[k]@,
        decreases rows.len() - i,
    {
        out.push(rows[i].clone());
        i += 1;
    }
    assert(out.deep_view() =~= rows.deep_view());
    out
}

impl Clone for Database {
    /// A store that holds the same rows and has handed out the same identifiers.
    fn clone(&self) -> (r: Self)
        ensures
            r@ == self@,
    {
        proof {
            use_type_invariant(&*self);
        }
        Database {
            users: copy_users(&self.users),
            books: copy_books(&self.books),
            last_user_id: self.last_user_id,
            last_book_id: self.last_book_id,
        }
    }
}

impl Database {
    /// The tables are in order and every row meets every constraint. This
    /// holds of every store at every time.
    #[verifier::type_invariant]
    pub open spec fn wf(&self) -> bool {
        self@.wf()
    }

    /// A store with two empty tables.
    pub fn new() -> (db: Database)
        ensures
            db@ == Tables::empty(),
            db.wf(),
    {
        let db = Database {
            users: Vec::new(),
            books: Vec::new(),
            last_user_id: 0,
            last_book_id: 0,
        };
        assert(db@.users =~= Seq::empty());
        assert(db@.books =~= Seq::empty());
        db
    }

    /// A store that holds exactly the rows given, which come in ascending
    /// order of identifier and break no constraint; or the reason why not.
    pub fn from_rows(users: Vec<user::Model>, books: Vec<book::Model>) -> (r: Result<
        Database,
        DbErr,
    >)
        ensures
            match r {
                Ok(db) => {
                    &&& load_violation(users.deep_view(), books.deep_view()) is None
                    &&& db@ == loaded(users.deep_view(), books.deep_view())
                    &&& db.wf()
                },
                Err(e) => load_violation(users.deep_view(), books.deep_view()) == Some(e),
            },
    {
        if !users_ascending(&users) || !books_ascending(&books) {
            return Err(DbErr::PrimaryKey);
        }
        if !texts_are_present(&users, &books) {
            return Err(DbErr::Check);
        }
        if !references_are_resolved(&users, &books) {
            return Err(DbErr::ForeignKey);
        }
        proof {
            lemma_loaded_wf(users.deep_view(), books.deep_view());
        }
        let last_user_id = last_user_key(&users);
        let last_book_id = last_book_key(&books);
        Ok(Database { users, books, last_user_id, last_book_id })
    }

    /// The user table, oldest first.
    pub fn users(&self) -> (r: &Vec<user::Model>)
        ensures
            r.deep_view() == self@.users,
    {
        &self.users
    }

    /// The book table, oldest first.
    pub fn books(&self) -> (r: &Vec<book::Model>)
        ensures
            r.deep_view() == self@.books,
    {
        &self.books
    }

    /// The last identifier that the user table has handed out.
    pub fn last_user_id(&self) -> (r: i32)
        ensures
            r == self@.last_user_id,
    {
        self.last_user_id
    }

    /// The last identifier that the book table has handed out.
    pub fn last_book_id(&self) -> (r: i32)
        ensures
            r == self@.last_book_id,
    {
        self.last_book_id
    }

    /// The user of identifier `id`, if the table holds one.
    pub fn find_user_by_id(&self, id: i32) -> (r: Option<user::Model>)
        ensures
            r.deep_view() == self@.user(id as int),
    {
        match user_position(&self.users, id) {
            Some(i) => Some(self.users[i].clone()),
            None => None,
        }
    }

    /// The book of identifier `id`, if the table holds one.
    pub fn find_book_by_id(&self, id: i32) -> (r: Option<book::Model>)
        ensures
            r.deep_view() == self@.book(id as int),
    {
        match book_position(&self.books, id) {
            Some(i) => Some(self.books[i].clone()),
            None => None,
        }
    }

    /// The users that pass `cond`, oldest first.
    pub fn find_users(&self, cond: &user::Condition) -> (r: Vec<user::Model>)
        ensures
            r.deep_view() == self@.users.filter(cond.selects()),
    {
        let ghost rows = self@.users;
        let mut out: Vec<user::Model> = Vec::new();
        let mut i: usize = 0;
        assert(rows.take(0).filter(cond.selects()) =~= Seq::empty()) by {
            reveal(Seq::filter);
        }
        assert(out.deep_view() =~= Seq::empty());
        while i < self.users.len()
            invariant
                i <= self.users.len(),
                rows == self@.users,
                rows == self.users.deep_view(),
                out.deep_view() == rows.take(i as int).filter(cond.selects()),
            decreases self.users.len() - i,
        {
            let ghost before = out.deep_view();
            proof {
                lemma_filter_push(rows.take(i as int), rows[i as int], cond.selects());
                assert(rows.take(i + 1) =~= rows.take(i as int).push(rows[i as int]));
            }
            if cond.eval(&self.users[i]) {
                out.push(self.users[i].clone());
                assert(out.deep_view() =~= before.push(rows[i as int]));
            }
            i += 1;
        }
        assert(rows.take(i as int) =~= rows);
        out
    }

    /// The books that pass `cond`, in the order asked for.
    pub fn find_books(&self, cond: &book::Condition, order: Order) -> (r: Vec<book::Model>)
        ensures
            r.deep_view() == ordered(self@.books.filter(cond.selects()), order),
    {
        let ghost rows = self@.books;
        let mut out: Vec<book::Model> = Vec::new();
        let mut i: usize = 0;
        assert(rows.take(0).filter(cond.selects()) =~= Seq::empty()) by {
            reveal(Seq::filter);
        }
        assert(out.deep_view() =~= Seq::empty());
        while i < self.books.len()
            invariant
                i <= self.books.len(),
                rows == self@.books,
                rows == self.books.deep_view(),
                out.deep_view() == rows.take(i as int).filter(cond.selects()),
            decreases self.books.len() - i,
        {
            let ghost before = out.deep_view();
            proof {
                lemma_filter_push(rows.take(i as int), rows[i as int], cond.selects());
                assert(rows.take(i + 1) =~= rows.take(i as int).push(rows[i as int]));
            }
            if cond.eval(&self.books[i]) {
                out.push(self.books[i].clone());
                assert(out.deep_view() =~= before.push(rows[i as int]));
            }
            i += 1;
        }
        assert(rows.take(i as int) =~= rows);
        match order {
            Order::Asc => out,
            Order::Desc => reverse_books(out),
        }
    }

    /// Takes both tables out of the store, which is left with empty tables
    /// and the identifiers it has handed out.
    fn take_tables(&mut self) -> (tables: (Vec<user::Model>, Vec<book::Model>))
        ensures
            tables.0 == old(self).users,
            tables.1 == old(self).books,
            final(self).users@.len() == 0,
            final(self).books@.len() == 0,
            final(self).last_user_id == old(self).last_user_id,
            final(self).last_book_id == old(self).last_book_id,
    {
        proof {
            use_type_invariant(&*self);
        }
        let mut books: Vec<book::Model> = Vec::new();
        std::mem::swap(&mut books, &mut self.books);
        let mut users: Vec<user::Model> = Vec::new();
        std::mem::swap(&mut users, &mut self.users);
        (users, books)
    }

    /// Puts tables into a store that holds none.
    fn put_tables(&mut self, users: Vec<user::Model>, books: Vec<book::Model>)
        requires
            old(self).users@.len() == 0,
            old(self).books@.len() == 0,
            (Tables {
                users: users.deep_view(),
                books: books.deep_view(),
                last_user_id: old(self).last_user_id as int,
                last_book_id: old(self).last_book_id as int,
            }).wf(),
        ensures
            final(self).users == users,
            final(self).books == books,
            final(self).last_user_id == old(self).last_user_id,
            final(self).last_book_id == old(self).last_book_id,
    {
        proof {
            use_type_invariant(&*self);
        }
        self.users = users;
        self.books = books;
    }

    /// The constraint that the row described by `form` breaks, if any.
    fn book_check(&self, form: &BookForm) -> (r: Option<DbErr>)
        ensures
            r == book_violation(self@.users, form.row(0)),
    {
        if form.title.as_str().is_empty() || form.authors.as_str().is_empty() {
            return Some(DbErr::Check);
        }
        if user_position(&self.users, form.owner_id).is_none() {
            return Some(DbErr::ForeignKey);
        }
        if let Some(holder) = form.current_holder_id {
            if user_position(&self.users, holder).is_none() {
                return Some(DbErr::ForeignKey);
            }
        }
        None
    }

    /// Whether some book belongs to `id` or is held by them.
    fn is_referenced(&self, id: i32) -> (r: bool)
        ensures
            r == self@.referenced(id as int),
    {
        let mut i: usize = 0;
        while i < self.books.len()
            invariant
                i <= self.books.len(),
                forall|k: int| 0 <= k < i ==> !names(#[trigger] self@.books[k], id as int),
            decreases self.books.len() - i,
        {
            let held = match self.books[i].current_holder_id {
                Some(holder) => holder == id,
                None => false,
            };
            if self.books[i].owner_id == id || held {
                assert(names(self@.books[i as int], id as int));
                return true;
            }
            i += 1;
        }
        false
    }

    /// Inserts a user of the form's name under the next identifier, unless the
    /// name is empty or no identifier is left.
    pub fn insert_user(&mut self, form: &UserForm) -> (r: Result<user::Model, DbErr>)
        ensures
            match r {
                Ok(u) => {
                    &&& old(self)@.insert_user_violation(form.name@) is None
                    &&& final(self)@ == old(self)@.insert_user(form.name@)
                    &&& u@ == (UserView { id: old(self)@.last_user_id + 1, name: form.name@ })
                },
                Err(e) => {
                    &&& old(self)@.insert_user_violation(form.name@) == Some(e)
                    &&& final(self)@ == old(self)@
                },
            },
    {
        proof {
            use_type_invariant(&*self);
        }
        if form.name.as_str().is_empty() {
            return Err(DbErr::Check);
        }
        if self.last_user_id == i32::MAX {
            return Err(DbErr::IdExhausted);
        }
        let id: i32 = self.last_user_id + 1;
        let row = user::Model { id, name: form.name.clone() };
        let out = row.clone();
        proof {
            lemma_insert_user_wf(old(self)@, form.name@);
        }
        let (mut users, books) = self.take_tables();
        users.push(row);
        assert(users.deep_view() =~= old(self)@.users.push(out@));
        self.last_user_id = id;
        self.put_tables(users, books);
        Ok(out)
    }

    /// Replaces the name of the user `id` by the form's, unless there is no
    /// such user or the name is empty.
    pub fn update_user(&mut self, id: i32, form: &UserForm) -> (r: Result<user::Model, DbErr>)
        ensures
            match r {
                Ok(u) => {
                    &&& u@ == (UserView { id: id as int, name: form.name@ })
                    &&& old(self)@.update_user_violation(u@) is None
                    &&& final(self)@ == old(self)@.update_user(u@)
                },
                Err(e) => {
                    &&& old(self)@.update_user_violation(
                        UserView { id: id as int, name: form.name@ },
                    ) == Some(e)
                    &&& final(self)@ == old(self)@
                },
            },
    {
        proof {
            use_type_invariant(&*self);
        }
        match user_position(&self.users, id) {
            None => Err(DbErr::RecordNotUpdated),
            Some(i) => {
                if form.name.as_str().is_empty() {
                    return Err(DbErr::Check);
                }
                let row = user::Model { id, name: form.name.clone() };
                let out = row.clone();
                proof {
                    lemma_update_user_wf(old(self)@, out@);
                }
                let (mut users, books) = self.take_tables();
                users[i] = row;
                assert(users.deep_view() =~= old(self)@.users.update(i as int, out@));
                self.put_tables(users, books);
                Ok(out)
            },
        }
    }

    /// Removes the user `id`, unless a book still names them. Removing a user
    /// that is not there changes nothing and affects no row.
    pub fn delete_user(&mut self, id: i32) -> (r: Result<DeleteResult, DbErr>)
        ensures
            match r {
                Ok(d) => {
                    &&& !old(self)@.referenced(id as int)
                    &&& final(self)@ == old(self)@.delete_user(id as int)
                    &&& d.rows_affected == if old(self)@.user(id as int) is Some {
                        1u64
                    } else {
                        0u64
                    }
                },
                Err(e) => {
                    &&& e == DbErr::ForeignKey
                    &&& old(self)@.referenced(id as int)
                    &&& final(self)@ == old(self)@
                },
            },
    {
        proof {
            use_type_invariant(&*self);
        }
        if self.is_referenced(id) {
            return Err(DbErr::ForeignKey);
        }
        proof {
            lemma_delete_user_wf(old(self)@, id as int);
        }
        match user_position(&self.users, id) {
            None => Ok(DeleteResult { rows_affected: 0 }),
            Some(i) => {
                let (mut users, books) = self.take_tables();
                users.remove(i);
                assert(users.deep_view() =~= old(self)@.users.remove(i as int));
                self.put_tables(users, books);
                Ok(DeleteResult { rows_affected: 1 })
            },
        }
    }

    /// Inserts the book that `form` describes under the next identifier,
    /// unless it breaks a constraint or no identifier is left.
    pub fn insert_book(&mut self, form: &BookForm) -> (r: Result<book::Model, DbErr>)
        ensures
            match r {
                Ok(b) => {
                    &&& old(self)@.insert_book_violation(*form) is None
                    &&& final(self)@ == old(self)@.insert_book(*form)
                    &&& b@ == form.row(old(self)@.last_book_id + 1)
                },
                Err(e) => {
                    &&& old(self)@.insert_book_violation(*form) == Some(e)
                    &&& final(self)@ == old(self)@
                },
            },
    {
        proof {
            use_type_invariant(&*self);
        }
        if let Some(e) = self.book_check(form) {
            return Err(e);
        }
        if self.last_book_id == i32::MAX {
            return Err(DbErr::IdExhausted);
        }
        let id: i32 = self.last_book_id + 1;
        let row = form.to_model(id);
        let out = row.clone();
        proof {
            lemma_insert_book_wf(old(self)@, *form);
        }
        let (users, mut books) = self.take_tables();
        books.push(row);
        assert(books.deep_view() =~= old(self)@.books.push(out@));
        self.last_book_id = id;
        self.put_tables(users, books);
        Ok(out)
    }

    /// Replaces every column of the book `id` by the form's, unless there is
    /// no such book or the new row breaks a constraint.
    pub fn update_book(&mut self, id: i32, form: &BookForm) -> (r: Result<book::Model, DbErr>)
        ensures
            match r {
                Ok(b) => {
                    &&& b@ == form.row(id as int)
                    &&& old(self)@.update_book_violation(b@) is None
                    &&& final(self)@ == old(self)@.update_book(b@)
                },
                Err(e) => {
                    &&& old(self)@.update_book_violation(form.row(id as int)) == Some(e)
                    &&& final(self)@ == old(self)@
                },
            },
    {
        proof {
            use_type_invariant(&*self);
        }
        match book_position(&self.books, id) {
            None => Err(DbErr::RecordNotUpdated),
            Some(i) => {
                if let Some(e) = self.book_check(form) {
                    return Err(e);
                }
                let row = form.to_model(id);
                let out = row.clone();
                proof {
                    lemma_update_book_wf(old(self)@, out@);
                }
                let (users, mut books) = self.take_tables();
                books[i] = row;
                assert(books.deep_view() =~= old(self)@.books.update(i as int, out@));
                self.put_tables(users, books);
                Ok(out)
            },
        }
    }

    /// Removes the book `id`. Removing a book that is not there changes
    /// nothing and affects no row.
    pub fn delete_book(&mut self, id: i32) -> (d: DeleteResult)
        ensures
            final(self)@ == old(self)@.delete_book(id as int),
            d.rows_affected == if old(self)@.book(id as int) is Some {
                1u64
            } else {
                0u64
            },
    {
        proof {
            use_type_invariant(&*self);
            lemma_delete_book_wf(old(self)@, id as int);
        }
        match book_position(&self.books, id) {
            None => DeleteResult { rows_affected: 0 },
            Some(i) => {
                let (users, mut books) = self.take_tables();
                books.remove(i);
                assert(books.deep_view() =~= old(self)@.books.remove(i as int));
                self.put_tables(users, books);
                DeleteResult { rows_affected: 1 }
            },
        }
    }
}

} // verus!
