//! Books: the row, the conditions a listing can put on it, and the service
//! that reads and writes the book table.

use crate::routes::book::{query_matches, query_selects, BookForm, IndexQuery};
use crate::state::database::{book_violation, DbErr, DeleteResult, Tables};
use crate::state::table::{
    ascending, lemma_filter_agree, lemma_filter_all, lemma_filter_contains, lemma_find_filter,
    lemma_find_push, lemma_find_removed, lemma_find_replaced, lemma_index_of, lemma_reverse_contains,
    Row,
};
use crate::state::AppState;
use crate::text::{contains, str_contains};
use vstd::prelude::*;

verus! {

/// A book row as the contracts see it.
pub struct BookView {
    pub id: int,
    pub title: Seq<char>,
    pub authors: Seq<char>,
    pub description: Option<Seq<char>>,
    pub comment: Option<Seq<char>>,
    pub owner_id: int,
    pub current_holder_id: Option<int>,
}

impl Row for BookView {
    open spec fn key(self) -> int {
        self.id
    }
}

/// A book row. The owner is the user the book belongs to; the current holder,
/// where there is one, is the user who has it now.
#[derive(Debug, PartialEq, Eq)]
pub struct Model {
    pub id: i32,
    pub title: String,
    pub authors: String,
    pub description: Option<String>,
    pub comment: Option<String>,
    pub owner_id: i32,
    pub current_holder_id: Option<i32>,
}

/// The holder's identifier as an integer of the contracts.
pub open spec fn holder_view(holder: Option<i32>) -> Option<int> {
    match holder {
        Some(id) => Some(id as int),
        None => None,
    }
}

impl View for Model {
    type V = BookView;

    open spec fn view(&self) -> BookView {
        BookView {
            id: self.id as int,
            title: self.title@,
            authors: self.authors@,
            description: self.description.deep_view(),
            comment: self.comment.deep_view(),
            owner_id: self.owner_id as int,
            current_holder_id: holder_view(self.current_holder_id),
        }
    }
}

impl DeepView for Model {
    type V = BookView;

    open spec fn deep_view(&self) -> BookView {
        self@
    }
}

/// A copy of an optional text.
pub fn clone_text(text: &Option<String>) -> (r: Option<String>)
    ensures
        r == *text,
{
    match text {
        Some(s) => Some(s.clone()),
        None => None,
    }
}

impl Clone for Model {
    fn clone(&self) -> (r: Self)
        ensures
            r == *self,
    {
        Model {
            id: self.id,
            title: self.title.clone(),
            authors: self.authors.clone(),
            description: clone_text(&self.description),
            comment: clone_text(&self.comment),
            owner_id: self.owner_id,
            current_holder_id: self.current_holder_id,
        }
    }
}

/// One test on a book row.
#[derive(Debug, PartialEq, Eq)]
pub enum Expr {
    /// The title holds the text somewhere.
    TitleContains(String),
    /// The authors hold the text somewhere.
    AuthorsContains(String),
    /// The book belongs to this user.
    OwnerIdEq(i32),
    /// The book is held by this user.
    CurrentHolderIdEq(i32),
}

impl Expr {
    /// The test passes on `b`.
    pub open spec fn holds(self, b: BookView) -> bool {
        match self {
            Expr::TitleContains(s) => contains(b.title, s@),
            Expr::AuthorsContains(s) => contains(b.authors, s@),
            Expr::OwnerIdEq(id) => b.owner_id == id,
            Expr::CurrentHolderIdEq(id) => b.current_holder_id == Some(id as int),
        }
    }

    /// Runs the test on `b`.
    pub fn eval(&self, b: &Model) -> (r: bool)
        ensures
            r == self.holds(b@),
    {
        match self {
            Expr::TitleContains(s) => str_contains(b.title.as_str(), s.as_str()),
            Expr::AuthorsContains(s) => str_contains(b.authors.as_str(), s.as_str()),
            Expr::OwnerIdEq(id) => b.owner_id == *id,
            Expr::CurrentHolderIdEq(id) => match b.current_holder_id {
                Some(holder) => holder == *id,
                None => false,
            },
        }
    }
}

/// A conjunction of tests: a row passes when it passes each of them, and an
/// empty conjunction lets every row pass.
#[derive(Debug, PartialEq, Eq)]
pub struct Condition {
    pub all: Vec<Expr>,
}

/// Every test of `exprs` passes on `b`.
pub open spec fn all_hold(exprs: Seq<Expr>, b: BookView) -> bool {
    forall|i: int| 0 <= i < exprs.len() ==> (#[trigger] exprs[i]).holds(b)
}

/// One more test narrows a conjunction by exactly that test.
pub proof fn lemma_all_hold_push(exprs: Seq<Expr>, e: Expr)
    ensures
        forall|b: BookView| #[trigger]
            all_hold(exprs.push(e), b) == (all_hold(exprs, b) && e.holds(b)),
{
    let next = exprs.push(e);
    assert forall|b: BookView| #[trigger]
        all_hold(next, b) == (all_hold(exprs, b) && e.holds(b)) by {
        if all_hold(next, b) {
            assert forall|i: int| 0 <= i < exprs.len() implies (#[trigger] exprs[i]).holds(b) by {
                assert(next[i] == exprs[i]);
            }
            assert(next[exprs.len() as int].holds(b));
        }
        if all_hold(exprs, b) && e.holds(b) {
            assert forall|i: int| 0 <= i < next.len() implies (#[trigger] next[i]).holds(b) by {
                if i < exprs.len() {
                    assert(exprs[i].holds(b));
                }
            }
        }
    }
}

impl Condition {
    /// Every test passes on `b`.
    pub open spec fn holds(self, b: BookView) -> bool {
        all_hold(self.all@, b)
    }

    /// `holds` as a predicate, for `Seq::filter`.
    pub open spec fn selects(self) -> spec_fn(BookView) -> bool {
        |b: BookView| self.holds(b)
    }

    /// Runs every test on `b`.
    pub fn eval(&self, b: &Model) -> (r: bool)
        ensures
            r == self.holds(b@),
    {
        let mut i: usize = 0;
        while i < self.all.len()
            invariant
                i <= self.all@.len(),
                forall|k: int| 0 <= k < i ==> (#[trigger] self.all@[k]).holds(b@),
            decreases self.all@.len() - i,
        {
            if !self.all[i].eval(b) {
                return false;
            }
            i += 1;
        }
        true
    }
}

/// The order in which a listing comes back.
#[derive(Debug, Clone, Copy, PartialEq, Eq, Structural)]
pub enum Order {
    /// Oldest first: the identifiers grow.
    Asc,
    /// Newest first: the identifiers fall.
    Desc,
}

/// The tests that a query stands for, in the order title, authors, owner,
/// holder: one for each column that the query names.
pub open spec fn conditions_of(query: Option<IndexQuery>) -> Seq<Expr> {
    match query {
        Some(q) => (match q.title {
            Some(t) => seq![Expr::TitleContains(t)],
            None => Seq::empty(),
        }) + (match q.authors {
            Some(a) => seq![Expr::AuthorsContains(a)],
            None => Seq::empty(),
        }) + (match q.owner_id {
            Some(o) => seq![Expr::OwnerIdEq(o)],
            None => Seq::empty(),
        }) + (match q.current_holder_id {
            Some(h) => seq![Expr::CurrentHolderIdEq(h)],
            None => Seq::empty(),
        }),
        None => Seq::empty(),
    }
}

/// Why a book service turned a request down.
#[derive(Debug, Clone, Copy, PartialEq, Eq, Structural)]
pub enum BookError {
    /// The store refused.
    DB { source: DbErr },
    /// No book has this identifier.
    NotFound { id: i32 },
}

/// The number of books on a page.
pub const PAGE_SIZE: usize = 100;

/// The page asked for, counted from one: anything below one is the first page.
pub open spec fn clamp_page(page: int) -> int {
    if page > 0 {
        page
    } else {
        1
    }
}

/// The number of pages that `rows` rows fill: `rows / 100`, rounded up.
pub open spec fn total_pages(rows: int) -> int {
    rows / 100 + if rows % 100 > 0 {
        1int
    } else {
        0int
    }
}

/// The rows of page `index`, counted from zero: a hundred rows from row
/// `100 * index` on, fewer at the end, and none beyond.
pub open spec fn page_of<T>(rows: Seq<T>, index: int) -> Seq<T> {
    if 0 <= index && 100 * index < rows.len() {
        rows.subrange(
            100 * index,
            if 100 * index + 100 < rows.len() {
                100 * index + 100
            } else {
                rows.len() as int
            },
        )
    } else {
        Seq::empty()
    }
}

/// One page of a listing as the contracts see it.
pub struct BooksPaginateView {
    pub books: Seq<BookView>,
    pub current_page: int,
    pub total_page: int,
}

/// One page of a listing, the number of that page, counted from one, and the
/// number of pages that the whole listing fills.
#[derive(Debug, PartialEq, Eq)]
pub struct BooksPaginate {
    pub books: Vec<Model>,
    pub current_page: u64,
    pub total_page: u64,
}

impl View for BooksPaginate {
    type V = BooksPaginateView;

    open spec fn view(&self) -> BooksPaginateView {
        BooksPaginateView {
            books: self.books.deep_view(),
            current_page: self.current_page as int,
            total_page: self.total_page as int,
        }
    }
}

/// The identifiers fall strictly along `books`: newest first, and no book twice.
pub open spec fn descending(books: Seq<BookView>) -> bool {
    forall|i: int, j: int|
        0 <= i < j < books.len() ==> (#[trigger] books[i]).id > (#[trigger] books[j]).id
}

/// The books of `books` that pass the query, newest first.
pub open spec fn listing(books: Seq<BookView>, query: Option<IndexQuery>) -> Seq<BookView> {
    books.filter(query_selects(query)).reverse()
}

/// The page `page` of the books of `books` that pass the query, newest first.
pub open spec fn paginate(
    books: Seq<BookView>,
    page: int,
    query: Option<IndexQuery>,
) -> BooksPaginateView {
    BooksPaginateView {
        books: page_of(listing(books, query), clamp_page(page) - 1),
        current_page: clamp_page(page),
        total_page: total_pages(listing(books, query).len() as int),
    }
}

/// `b` belongs to the user `owner_id`.
pub open spec fn owned_by(owner_id: int) -> spec_fn(BookView) -> bool {
    |b: BookView| b.owner_id == owner_id
}

/// `b` is held by the user `holder_id`.
pub open spec fn held_by(holder_id: int) -> spec_fn(BookView) -> bool {
    |b: BookView| b.current_holder_id == Some(holder_id)
}

/// `b` does not belong to the user `owner_id`.
pub open spec fn not_owned_by(owner_id: int) -> spec_fn(BookView) -> bool {
    |b: BookView| b.owner_id != owner_id
}

/// `b` back on its owner's shelf: no holder, every other column as it was.
pub open spec fn released(b: BookView) -> BookView {
    BookView { current_holder_id: None, ..b }
}

/// `b` back on its owner's shelf where the user `holder_id` held it, and as it
/// was elsewhere.
pub open spec fn release_from(holder_id: int) -> spec_fn(BookView) -> BookView {
    |b: BookView|
        if b.current_holder_id == Some(holder_id) {
            released(b)
        } else {
            b
        }
}

impl Model {
    /// Whether the book belongs to the user `user_id`.
    pub fn is_owned_by(&self, user_id: &i32) -> (r: bool)
        ensures
            r == owned_by(*user_id as int)(self@),
    {
        self.owner_id == *user_id
    }

    /// Whether the user `user_id` holds the book.
    pub fn is_held_by(&self, user_id: &i32) -> (r: bool)
        ensures
            r == held_by(*user_id as int)(self@),
    {
        match self.current_holder_id {
            Some(holder) => holder == *user_id,
            None => false,
        }
    }

    /// The form that puts this book back on its owner's shelf: every column
    /// as it is, and no holder.
    pub fn released_form(&self) -> (form: BookForm)
        ensures
            form.row(self.id as int) == released(self@),
    {
        BookForm {
            title: self.title.clone(),
            authors: self.authors.clone(),
            owner_id: self.owner_id,
            description: clone_text(&self.description),
            comment: clone_text(&self.comment),
            current_holder_id: None,
        }
    }
}

/// A copy of the rows from `start` up to `end`.
pub fn copy_range(rows: &Vec<Model>, start: usize, end: usize) -> (r: Vec<Model>)
    requires
        start <= end <= rows.len(),
    ensures
        r.deep_view() == rows.deep_view().subrange(start as int, end as int),
{
    let mut out: Vec<Model> = Vec::new();
    let mut i: usize = start;
    assert(out.deep_view() =~= rows.deep_view().subrange(start as int, start as int));
    while i < end
        invariant
            start <= i <= end <= rows.len(),
            out.deep_view() == rows.deep_view().subrange(start as int, i as int),
        decreases end - i,
    {
        let ghost before = out.deep_view();
        out.push(rows[i].clone());
        assert(out.deep_view() =~= before.push(rows.deep_view()[i as int]));
        i += 1;
        assert(out.deep_view() =~= rows.deep_view().subrange(start as int, i as int));
    }
    out
}

/// The book service: every read and write of the book table.
#[derive(Debug)]
pub struct BookOperator {
    pub state: AppState,
}

impl BookOperator {
    /// A service on the given state.
    pub fn new(state: AppState) -> (op: Self)
        ensures
            op.state == state,
    {
        BookOperator { state }
    }

    /// Every book, newest first.
    pub fn all(&self) -> (r: Result<Vec<Model>, BookError>)
        ensures
            r is Ok,
            r->Ok_0.deep_view() == self.state.db@.books.reverse(),
            descending(r->Ok_0.deep_view()),
    {
        let cond = Condition { all: Vec::new() };
        let books = self.state.db.find_books(&cond, Order::Desc);
        proof {
            use_type_invariant(&self.state.db);
            lemma_filter_all(self.state.db@.books, cond.selects());
            lemma_filter_all(self.state.db@.books, query_selects(None));
            lemma_listing_descends(self.state.db@.books, None);
        }
        Ok(books)
    }

    /// The books that pass the query, newest first; every book where there
    /// is no query.
    pub fn all_filtered(&self, query: Option<IndexQuery>) -> (r: Result<Vec<Model>, BookError>)
        ensures
            r is Ok,
            r->Ok_0.deep_view() == listing(self.state.db@.books, query),
            descending(r->Ok_0.deep_view()),
    {
        let cond = Self::filter_conditions(query);
        let books = self.state.db.find_books(&cond, Order::Desc);
        proof {
            use_type_invariant(&self.state.db);
            lemma_filter_agree(self.state.db@.books, cond.selects(), query_selects(query));
            lemma_listing_descends(self.state.db@.books, query);
        }
        Ok(books)
    }

    /// One page of the books that pass the query, newest first. Pages are
    /// counted from one, and a page below one is the first page. A page
    /// beyond the last is empty; the number of pages does not depend on the
    /// page asked for.
    pub fn all_paginate(&self, page: u64, query: Option<IndexQuery>) -> (r: Result<
        BooksPaginate,
        BookError,
    >)
        ensures
            r is Ok,
            r->Ok_0@ == paginate(self.state.db@.books, page as int, query),
    {
        let page: u64 = if page > 0 {
            page
        } else {
            1
        };
        let page_0indexed: u64 = page - 1;
        let cond = Self::filter_conditions(query);
        let matching = self.state.db.find_books(&cond, Order::Desc);
        proof {
            lemma_filter_agree(self.state.db@.books, cond.selects(), query_selects(query));
        }
        let n: usize = matching.len();
        let full: usize = n / PAGE_SIZE;
        let total_page: u64 = full as u64 + if n % PAGE_SIZE > 0 {
            1u64
        } else {
            0u64
        };
        let books = if page_0indexed <= full as u64 && (page_0indexed as usize) * PAGE_SIZE < n {
            let start: usize = (page_0indexed as usize) * PAGE_SIZE;
            let end: usize = if n - start > PAGE_SIZE {
                start + PAGE_SIZE
            } else {
                n
            };
            copy_range(&matching, start, end)
        } else {
            let none: Vec<Model> = Vec::new();
            assert(none.deep_view() =~= Seq::empty());
            none
        };
        Ok(BooksPaginate { books, current_page: page, total_page })
    }

    /// The book of identifier `id`.
    pub fn find_by_id(&self, id: i32) -> (r: Result<Model, BookError>)
        ensures
            match r {
                Ok(b) => self.state.db@.book(id as int) == Some(b@),
                Err(e) => self.state.db@.book(id as int) is None && e == (BookError::NotFound {
                    id,
                }),
            },
    {
        match self.state.db.find_book_by_id(id) {
            Some(book) => Ok(book),
            None => Err(BookError::NotFound { id }),
        }
    }

    /// The books that belong to the user `owner_id`, oldest first.
    pub fn find_all_by_owner(&self, owner_id: i32) -> (r: Result<Vec<Model>, BookError>)
        ensures
            r is Ok,
            r->Ok_0.deep_view() == self.state.db@.books.filter(owned_by(owner_id as int)),
    {
        let mut all: Vec<Expr> = Vec::new();
        all.push(Expr::OwnerIdEq(owner_id));
        let cond = Condition { all };
        let books = self.state.db.find_books(&cond, Order::Asc);
        proof {
            assert forall|b: BookView| cond.holds(b) == (b.owner_id == owner_id) by {
                assert(cond.all@[0].holds(b) == (b.owner_id == owner_id));
            }
            lemma_filter_agree(self.state.db@.books, cond.selects(), owned_by(owner_id as int));
        }
        Ok(books)
    }

    /// The books that the user `current_holder_id` holds, oldest first.
    pub fn find_all_by_current_holder(&self, current_holder_id: i32) -> (r: Result<
        Vec<Model>,
        BookError,
    >)
        ensures
            r is Ok,
            r->Ok_0.deep_view() == self.state.db@.books.filter(held_by(current_holder_id as int)),
    {
        let mut all: Vec<Expr> = Vec::new();
        all.push(Expr::CurrentHolderIdEq(current_holder_id));
        let cond = Condition { all };
        let books = self.state.db.find_books(&cond, Order::Asc);
        proof {
            assert forall|b: BookView|
                cond.holds(b) == (b.current_holder_id == Some(current_holder_id as int)) by {
                assert(cond.all@[0].holds(b) == (b.current_holder_id == Some(
                    current_holder_id as int,
                )));
            }
            lemma_filter_agree(
                self.state.db@.books,
                cond.selects(),
                held_by(current_holder_id as int),
            );
        }
        Ok(books)
    }

    /// Adds the book that `form` describes. The store gives it the next
    /// identifier; every other column is the form's. The store refuses a form
    /// with an empty title or author line, or with an owner or holder that is
    /// not a user, and then nothing changes.
    pub fn create(&mut self, form: BookForm) -> (r: Result<Model, BookError>)
        ensures
            final(self).state.config == old(self).state.config,
            match r {
                Ok(b) => {
                    &&& old(self).state.db@.insert_book_violation(form) is None
                    &&& b@ == form.row(old(self).state.db@.last_book_id + 1)
                    &&& final(self).state.db@ == old(self).state.db@.insert_book(form)
                },
                Err(e) => {
                    &&& old(self).state.db@.insert_book_violation(form) is Some
                    &&& e == (BookError::DB {
                        source: old(self).state.db@.insert_book_violation(form)->0,
                    })
                    &&& final(self).state.db@ == old(self).state.db@
                },
            },
    {
        match self.state.db.insert_book(&form) {
            Ok(book) => Ok(book),
            Err(source) => Err(BookError::DB { source }),
        }
    }

    /// Replaces every column of the book `id` by the form's: an optional
    /// column that the form leaves out becomes absent. Without such a book
    /// the answer is `NotFound`; a form that the store refuses changes nothing.
    pub fn update(&mut self, id: i32, form: BookForm) -> (r: Result<Model, BookError>)
        ensures
            final(self).state.config == old(self).state.config,
            match r {
                Ok(b) => {
                    &&& old(self).state.db@.book(id as int) is Some
                    &&& book_violation(old(self).state.db@.users, form.row(id as int)) is None
                    &&& b@ == form.row(id as int)
                    &&& final(self).state.db@ == old(self).state.db@.update_book(b@)
                },
                Err(e) => {
                    &&& final(self).state.db@ == old(self).state.db@
                    &&& if old(self).state.db@.book(id as int) is None {
                        e == (BookError::NotFound { id })
                    } else {
                        &&& book_violation(old(self).state.db@.users, form.row(id as int)) is Some
                        &&& e == (BookError::DB {
                            source: book_violation(
                                old(self).state.db@.users,
                                form.row(id as int),
                            )->0,
                        })
                    }
                },
            },
    {
        match self.find_by_id(id) {
            Ok(_) => match self.state.db.update_book(id, &form) {
                Ok(book) => Ok(book),
                Err(source) => Err(BookError::DB { source }),
            },
            Err(_) => Err(BookError::NotFound { id }),
        }
    }

    /// Removes the book `id`. Without such a book the answer is `NotFound`
    /// and nothing changes.
    pub fn delete(&mut self, id: i32) -> (r: Result<DeleteResult, BookError>)
        ensures
            final(self).state.config == old(self).state.config,
            match r {
                Ok(d) => {
                    &&& old(self).state.db@.book(id as int) is Some
                    &&& d.rows_affected == 1
                    &&& final(self).state.db@ == old(self).state.db@.delete_book(id as int)
                },
                Err(e) => {
                    &&& old(self).state.db@.book(id as int) is None
                    &&& e == (BookError::NotFound { id })
                    &&& final(self).state.db@ == old(self).state.db@
                },
            },
    {
        match self.state.db.find_book_by_id(id) {
            Some(_) => Ok(self.state.db.delete_book(id)),
            None => Err(BookError::NotFound { id }),
        }
    }

    /// The condition that a query stands for: one test for each column that
    /// the query names, and none where there is no query.
    pub fn filter_conditions(query: Option<IndexQuery>) -> (conditions: Condition)
        ensures
            conditions.all@ == conditions_of(query),
            forall|b: BookView| #[trigger] conditions.holds(b) == query_matches(query, b),
    {
        let mut all: Vec<Expr> = Vec::new();
        if let Some(book_query) = query {
            if let Some(title) = book_query.title {
                proof {
                    lemma_all_hold_push(all@, Expr::TitleContains(title));
                }
                all.push(Expr::TitleContains(title));
            }
            if let Some(authors) = book_query.authors {
                proof {
                    lemma_all_hold_push(all@, Expr::AuthorsContains(authors));
                }
                all.push(Expr::AuthorsContains(authors));
            }
            if let Some(owner_id) = book_query.owner_id {
                proof {
                    lemma_all_hold_push(all@, Expr::OwnerIdEq(owner_id));
                }
                all.push(Expr::OwnerIdEq(owner_id));
            }
            if let Some(current_holder_id) = book_query.current_holder_id {
                proof {
                    lemma_all_hold_push(all@, Expr::CurrentHolderIdEq(current_holder_id));
                }
                all.push(Expr::CurrentHolderIdEq(current_holder_id));
            }
        }
        assert(all@ =~= conditions_of(query));
        Condition { all }
    }
}

/// A book that was added is found under the identifier it was given, with
/// every column as the form gave it; every other lookup is as before.
pub proof fn lemma_create_then_find(t: Tables, form: BookForm)
    requires
        t.wf(),
        t.insert_book_violation(form) is None,
    ensures
        t.insert_book(form).book(t.last_book_id + 1) == Some(form.row(t.last_book_id + 1)),
        t.book(t.last_book_id + 1) is None,
        forall|other: int|
            other != t.last_book_id + 1 ==> #[trigger] t.insert_book(form).book(other) == t.book(
                other,
            ),
{
    let row = form.row(t.last_book_id + 1);
    lemma_find_push(t.books, row, row.id);
    lemma_index_of(t.books, row.id);
    assert forall|other: int| other != t.last_book_id + 1 implies #[trigger] t.insert_book(
        form,
    ).book(other) == t.book(other) by {
        lemma_find_push(t.books, row, other);
    }
}

/// After an update the book is found with every column as the form gave it:
/// an optional column that the form leaves out is absent, whatever the book
/// held before. Every other lookup is as before.
pub proof fn lemma_update_then_find(t: Tables, id: int, form: BookForm)
    requires
        t.wf(),
        t.book(id) is Some,
    ensures
        t.update_book(form.row(id)).book(id) == Some(form.row(id)),
        form.description is None ==> t.update_book(form.row(id)).book(id)->0.description is None,
        form.comment is None ==> t.update_book(form.row(id)).book(id)->0.comment is None,
        form.current_holder_id is None ==> t.update_book(form.row(id)).book(
            id,
        )->0.current_holder_id is None,
        forall|other: int|
            other != id ==> #[trigger] t.update_book(form.row(id)).book(other) == t.book(other),
{
    lemma_find_replaced(t.books, form.row(id), id);
    assert forall|other: int| other != id implies #[trigger] t.update_book(form.row(id)).book(
        other,
    ) == t.book(other) by {
        lemma_find_replaced(t.books, form.row(id), other);
    }
}

/// After a book was deleted no lookup finds it; every other lookup is as before.
pub proof fn lemma_delete_then_find(t: Tables, id: int)
    requires
        t.wf(),
    ensures
        t.delete_book(id).book(id) is None,
        forall|other: int| other != id ==> #[trigger] t.delete_book(id).book(other) == t.book(other),
{
    lemma_find_removed(t.books, id, id);
    assert forall|other: int| other != id implies #[trigger] t.delete_book(id).book(other)
        == t.book(other) by {
        lemma_find_removed(t.books, id, other);
    }
}

/// Asking for page zero is asking for page one.
pub proof fn lemma_page_zero_is_page_one(books: Seq<BookView>, query: Option<IndexQuery>)
    ensures
        paginate(books, 0, query) == paginate(books, 1, query),
{
}

/// The number of pages is the number of rows over a hundred, rounded up.
pub proof fn lemma_total_pages_is_ceiling(rows: int)
    requires
        0 <= rows,
    ensures
        100 * total_pages(rows) >= rows,
        100 * (total_pages(rows) - 1) < rows,
{
}

/// The number of pages does not depend on the page asked for, and a page
/// beyond the last holds no book.
pub proof fn lemma_page_beyond_last_is_empty(
    books: Seq<BookView>,
    page: int,
    other: int,
    query: Option<IndexQuery>,
)
    ensures
        paginate(books, page, query).total_page == paginate(books, other, query).total_page,
        page > paginate(books, page, query).total_page ==> paginate(books, page, query).books
            == Seq::<BookView>::empty(),
{
    lemma_total_pages_is_ceiling(listing(books, query).len() as int);
}

/// Up to the last page, a page holds the rows that its place gives: a hundred
/// on each page but the last, and the rest on the last.
pub proof fn lemma_page_len<T>(rows: Seq<T>, index: int)
    requires
        0 <= index < total_pages(rows.len() as int),
    ensures
        page_of(rows, index).len() == if index + 1 < total_pages(rows.len() as int) {
            100
        } else {
            rows.len() - 100 * index
        },
        forall|k: int|
            0 <= k < page_of(rows, index).len() ==> #[trigger] page_of(rows, index)[k] == rows[100
                * index + k],
{
}

/// A listing holds exactly the books of the table that pass every test of the
/// query: a book that fails one of them is not listed, whatever the others
/// say. Without a query every book is listed.
pub proof fn lemma_listing_is_conjunctive(books: Seq<BookView>, query: IndexQuery, b: BookView)
    ensures
        listing(books, Some(query)).contains(b) <==> {
            &&& books.contains(b)
            &&& query.title matches Some(t) ==> contains(b.title, t@)
            &&& query.authors matches Some(a) ==> contains(b.authors, a@)
            &&& query.owner_id matches Some(o) ==> b.owner_id == o
            &&& query.current_holder_id matches Some(h) ==> b.current_holder_id == Some(h as int)
        },
        listing(books, None) == books.reverse(),
{
    lemma_filter_contains(books, query_selects(Some(query)), b);
    lemma_reverse_contains(books.filter(query_selects(Some(query))), b);
    lemma_filter_all(books, query_selects(None));
}

/// A listing of a table in order comes newest first: the identifiers fall
/// strictly along it.
pub proof fn lemma_listing_descends(books: Seq<BookView>, query: Option<IndexQuery>)
    requires
        ascending(books),
    ensures
        descending(listing(books, query)),
{
    lemma_find_filter(books, query_selects(query));
    let kept = books.filter(query_selects(query));
    assert forall|i: int, j: int| 0 <= i < j < listing(books, query).len() implies (
    #[trigger] listing(books, query)[i]).id > (#[trigger] listing(books, query)[j]).id by {
        assert(kept[kept.len() - 1 - j].key() < kept[kept.len() - 1 - i].key());
    }
}

} // verus!
