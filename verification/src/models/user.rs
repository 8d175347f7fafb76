//! Users: the row, the conditions a listing can put on it, and the service
//! that reads and writes the user table.

use crate::models::book::{
    held_by, not_owned_by, owned_by, release_from, released, BookError, BookOperator, BookView,
};
use crate::routes::user::{IndexQuery, UserForm};
use crate::state::database::{book_violation, name_violation, DbErr, DeleteResult, Tables};
use crate::state::table::{
    ascending, find, find_kept, index_of, lemma_ascending_ext, lemma_ascending_removed,
    lemma_filter_agree, lemma_filter_all, lemma_find_filter, lemma_find_map, lemma_find_push,
    lemma_find_removed, lemma_find_replaced, lemma_index_of, lemma_index_of_row, removed, Row,
};
use crate::state::AppState;
use crate::text::{contains, str_contains};
use vstd::prelude::*;

verus! {

/// A user row as the contracts see it.
pub struct UserView {
    pub id: int,
    pub name: Seq<char>,
}

impl Row for UserView {
    open spec fn key(self) -> int {
        self.id
    }
}

/// A user row.
#[derive(Debug, PartialEq, Eq)]
pub struct Model {
    pub id: i32,
    pub name: String,
}

impl View for Model {
    type V = UserView;

    open spec fn view(&self) -> UserView {
        UserView { id: self.id as int, name: self.name@ }
    }
}

impl DeepView for Model {
    type V = UserView;

    open spec fn deep_view(&self) -> UserView {
        self@
    }
}

impl Clone for Model {
    fn clone(&self) -> (r: Self)
        ensures
            r == *self,
    {
        Model { id: self.id, name: self.name.clone() }
    }
}

/// One test on a user row.
#[derive(Debug, PartialEq, Eq)]
pub enum Expr {
    /// The name holds the text somewhere.
    NameContains(String),
}

impl Expr {
    /// The test passes on `u`.
    pub open spec fn holds(self, u: UserView) -> bool {
        match self {
            Expr::NameContains(s) => contains(u.name, s@),
        }
    }

    /// Runs the test on `u`.
    pub fn eval(&self, u: &Model) -> (r: bool)
        ensures
            r == self.holds(u@),
    {
        match self {
            Expr::NameContains(s) => str_contains(u.name.as_str(), s.as_str()),
        }
    }
}

/// A conjunction of tests: a row passes when it passes each of them, and an
/// empty conjunction lets every row pass.
#[derive(Debug, PartialEq, Eq)]
pub struct Condition {
    pub all: Vec<Expr>,
}

impl Condition {
    /// Every test passes on `u`.
    pub open spec fn holds(self, u: UserView) -> bool {
        forall|i: int| 0 <= i < self.all@.len() ==> (#[trigger] self.all@[i]).holds(u)
    }

    /// `holds` as a predicate, for `Seq::filter`.
    pub open spec fn selects(self) -> spec_fn(UserView) -> bool {
        |u: UserView| self.holds(u)
    }

    /// Runs every test on `u`.
    pub fn eval(&self, u: &Model) -> (r: bool)
        ensures
            r == self.holds(u@),
    {
        let mut i: usize = 0;
        while i < self.all.len()
            invariant
                i <= self.all@.len(),
                forall|k: int| 0 <= k < i ==> (#[trigger] self.all@[k]).holds(u@),
            decreases self.all@.len() - i,
        {
            if !self.all[i].eval(u) {
                return false;
            }
            i += 1;
        }
        true
    }
}

/// Why a user service turned a request down.
#[derive(Debug, Clone, Copy, PartialEq, Eq, Structural)]
#[allow(inconsistent_fields)]
pub enum UserError {
    /// The store refused.
    DB { source: DbErr },
    /// No user has this identifier.
    NotFound { id: i32 },
    /// The book service refused.
    Book { source: BookError },
}

/// The tables after the user `user_id` left: every book they owned is gone,
/// every book they held is back on its owner's shelf, and their row is gone.
pub open spec fn cascade(t: Tables, user_id: int) -> Tables {
    Tables {
        users: removed(t.users, user_id),
        books: t.books.filter(not_owned_by(user_id)).map_values(release_from(user_id)),
        ..t
    }
}

/// What a lookup finds among the books after the user `user_id` left.
pub open spec fn book_after_cascade(t: Tables, user_id: int, id: int) -> Option<BookView> {
    match t.book(id) {
        Some(b) => if b.owner_id == user_id {
            None
        } else {
            Some(release_from(user_id)(b))
        },
        None => None,
    }
}

/// After the user `user_id` left, the book table is still in order, and a
/// lookup finds no book of theirs and every other book, those they held
/// without a holder.
pub proof fn lemma_cascade_books(t: Tables, user_id: int)
    requires
        ascending(t.books),
    ensures
        ascending(cascade(t, user_id).books),
        forall|id: int| #[trigger]
            find(cascade(t, user_id).books, id) == book_after_cascade(t, user_id, id),
{
    let kept = t.books.filter(not_owned_by(user_id));
    lemma_find_filter(t.books, not_owned_by(user_id));
    lemma_find_map(kept, release_from(user_id));
    assert forall|id: int| #[trigger]
        find(cascade(t, user_id).books, id) == book_after_cascade(t, user_id, id) by {
        assert(find(kept, id) == find_kept(t.books, not_owned_by(user_id), id));
    }
}

/// Once a user has left, no lookup finds them, no book names them as owner
/// or as holder, and every other user is found as before.
pub proof fn lemma_cascade_leaves_no_trace(t: Tables, user_id: int)
    requires
        t.wf(),
    ensures
        cascade(t, user_id).user(user_id) is None,
        !cascade(t, user_id).referenced(user_id),
        forall|other: int|
            other != user_id ==> #[trigger] cascade(t, user_id).user(other) == t.user(other),
{
    let next = cascade(t, user_id);
    lemma_find_removed(t.users, user_id, user_id);
    assert forall|other: int| other != user_id implies #[trigger] next.user(other) == t.user(
        other,
    ) by {
        lemma_find_removed(t.users, user_id, other);
    }
    lemma_cascade_books(t, user_id);
    assert forall|at: int| 0 <= at < next.books.len() implies !crate::state::database::names(
        #[trigger] next.books[at],
        user_id,
    ) by {
        let b = next.books[at];
        lemma_index_of_row(next.books, at);
        assert(find(next.books, b.id) == book_after_cascade(t, user_id, b.id));
    }
}

/// A user's leaving keeps the tables well-formed: every book that is left
/// names users that are left.
pub proof fn lemma_cascade_wf(t: Tables, user_id: int)
    requires
        t.wf(),
    ensures
        cascade(t, user_id).wf(),
{
    let next = cascade(t, user_id);
    lemma_cascade_books(t, user_id);
    lemma_ascending_removed(t.users, user_id, t.last_user_id);
    lemma_index_of(t.users, user_id);
    assert forall|i: int| 0 <= i < next.users.len() implies name_violation(
        (#[trigger] next.users[i]).name,
    ) is None by {
        if let Some(k) = index_of(t.users, user_id) {
            let a = if i < k { i } else { i + 1 };
            assert(next.users[i] == t.users[a]);
            assert(name_violation(t.users[a].name) is None);
        } else {
            assert(name_violation(t.users[i].name) is None);
        }
    }
    assert forall|at: int| 0 <= at < next.books.len() implies {
        &&& (#[trigger] next.books[at]).id <= t.last_book_id
        &&& book_violation(next.users, next.books[at]) is None
    } by {
        let b = next.books[at];
        lemma_index_of_row(next.books, at);
        assert(find(next.books, b.id) == book_after_cascade(t, user_id, b.id));
        lemma_index_of(t.books, b.id);
        let was = t.books[index_of(t.books, b.id)->0];
        assert(book_violation(t.users, was) is None);
        assert(was.id <= t.last_book_id);
        lemma_find_removed(t.users, user_id, b.owner_id);
        if b.current_holder_id is Some {
            lemma_find_removed(t.users, user_id, b.current_holder_id->0);
        }
    }
}

/// The user service: every read and write of the user table, and what a
/// user's leaving does to the books.
#[derive(Debug)]
pub struct UserOperator {
    pub books: BookOperator,
}

impl UserOperator {
    /// The tables that the service works on.
    pub open spec fn tables(&self) -> Tables {
        self.books.state.db@
    }

    /// A service on the given state.
    pub fn new(state: AppState) -> (op: Self)
        ensures
            op.books.state == state,
    {
        UserOperator { books: BookOperator::new(state) }
    }

    /// Every user, oldest first.
    pub fn all(&self) -> (r: Result<Vec<Model>, UserError>)
        ensures
            r is Ok,
            r->Ok_0.deep_view() == self.books.state.db@.users,
    {
        let cond = Condition { all: Vec::new() };
        let users = self.books.state.db.find_users(&cond);
        proof {
            lemma_filter_all(self.books.state.db@.users, cond.selects());
        }
        Ok(users)
    }

    /// The users that pass the query, oldest first.
    pub fn all_filtered(&self, query: IndexQuery) -> (r: Result<Vec<Model>, UserError>)
        ensures
            r is Ok,
            r->Ok_0.deep_view() == self.books.state.db@.users.filter(query.selects()),
    {
        let mut all: Vec<Expr> = Vec::new();
        if let Some(name) = query.name {
            all.push(Expr::NameContains(name));
        }
        let conditions = Condition { all };
        let users = self.books.state.db.find_users(&conditions);
        proof {
            assert forall|u: UserView| conditions.holds(u) == query.matches(u) by {
                if query.name is Some {
                    assert(conditions.all@[0].holds(u) == query.matches(u));
                }
            }
            lemma_filter_agree(self.books.state.db@.users, conditions.selects(), query.selects());
        }
        Ok(users)
    }

    /// The user of identifier `id`.
    pub fn find_by_id(&self, id: i32) -> (r: Result<Model, UserError>)
        ensures
            match r {
                Ok(u) => self.books.state.db@.user(id as int) == Some(u@),
                Err(e) => self.books.state.db@.user(id as int) is None && e == (
                UserError::NotFound { id }),
            },
    {
        match self.books.state.db.find_user_by_id(id) {
            Some(user) => Ok(user),
            None => Err(UserError::NotFound { id }),
        }
    }

    /// Adds a user of the form's name under the next identifier. The store
    /// refuses an empty name, and then nothing changes.
    pub fn create(&mut self, form: UserForm) -> (r: Result<Model, UserError>)
        ensures
            final(self).books.state.config == old(self).books.state.config,
            match r {
                Ok(u) => {
                    &&& old(self).books.state.db@.insert_user_violation(form.name@) is None
                    &&& u@ == (UserView {
                        id: old(self).books.state.db@.last_user_id + 1,
                        name: form.name@,
                    })
                    &&& final(self).books.state.db@ == old(self).books.state.db@.insert_user(
                        form.name@,
                    )
                },
                Err(e) => {
                    &&& old(self).books.state.db@.insert_user_violation(form.name@) is Some
                    &&& e == (UserError::DB {
                        source: old(self).books.state.db@.insert_user_violation(form.name@)->0,
                    })
                    &&& final(self).books.state.db@ == old(self).books.state.db@
                },
            },
    {
        match self.books.state.db.insert_user(&form) {
            Ok(user) => Ok(user),
            Err(source) => Err(UserError::DB { source }),
        }
    }

    /// Replaces the name of the user `id` by the form's. Without such a user
    /// the answer is `NotFound`; a name that the store refuses changes nothing.
    pub fn update(&mut self, id: i32, form: UserForm) -> (r: Result<Model, UserError>)
        ensures
            final(self).books.state.config == old(self).books.state.config,
            match r {
                Ok(u) => {
                    &&& old(self).books.state.db@.user(id as int) is Some
                    &&& name_violation(form.name@) is None
                    &&& u@ == (UserView { id: id as int, name: form.name@ })
                    &&& final(self).books.state.db@ == old(self).books.state.db@.update_user(u@)
                },
                Err(e) => {
                    &&& final(self).books.state.db@ == old(self).books.state.db@
                    &&& if old(self).books.state.db@.user(id as int) is None {
                        e == (UserError::NotFound { id })
                    } else {
                        &&& name_violation(form.name@) is Some
                        &&& e == (UserError::DB { source: name_violation(form.name@)->0 })
                    }
                },
            },
    {
        match self.find_by_id(id) {
            Ok(_) => match self.books.state.db.update_user(id, &form) {
                Ok(user) => Ok(user),
                Err(source) => Err(UserError::DB { source }),
            },
            Err(_) => Err(UserError::NotFound { id }),
        }
    }

    /// Removes the user `user_id` and what hangs on them, in this order: every
    /// book they own is deleted; every book they still hold goes back to its
    /// owner's shelf, every other column as it was; then their own row is
    /// deleted. Without such a user the answer is `NotFound` and nothing
    /// changes.
    pub fn delete(&mut self, user_id: i32) -> (r: Result<DeleteResult, UserError>)
        ensures
            final(self).books.state.config == old(self).books.state.config,
            match r {
                Ok(d) => {
                    &&& old(self).books.state.db@.user(user_id as int) is Some
                    &&& d.rows_affected == 1
                    &&& final(self).books.state.db@ == cascade(
                        old(self).books.state.db@,
                        user_id as int,
                    )
                },
                Err(e) => {
                    &&& old(self).books.state.db@.user(user_id as int) is None
                    &&& e == (UserError::NotFound { id: user_id })
                    &&& final(self).books.state.db@ == old(self).books.state.db@
                },
            },
    {
        let ghost uid = user_id as int;
        let ghost t0 = self.books.state.db@;
        proof {
            use_type_invariant(&self.books.state.db);
        }
        let owner_books = match self.books.find_all_by_owner(user_id) {
            Ok(books) => books,
            Err(source) => {
                return Err(UserError::Book { source });
            },
        };
        let ghost owned = owner_books.deep_view();
        proof {
            lemma_find_filter(t0.books, owned_by(uid));
            assert(owned.take(0) =~= Seq::<BookView>::empty());
        }
        let mut i: usize = 0;
        while i < owner_books.len()
            invariant
                i <= owner_books.len(),
                owned == owner_books.deep_view(),
                t0.wf(),
                uid == user_id as int,
                self.books.state.config == old(self).books.state.config,
                ascending(owned),
                forall|id: int| #[trigger] find(owned, id) == find_kept(t0.books, owned_by(uid), id),
                self.books.state.db@.users == t0.users,
                self.books.state.db@.last_user_id == t0.last_user_id,
                self.books.state.db@.last_book_id == t0.last_book_id,
                forall|id: int| #[trigger]
                    find(self.books.state.db@.books, id) == if find(owned.take(i as int), id)
                        is Some {
                        None
                    } else {
                        find(t0.books, id)
                    },
            decreases owner_books.len() - i,
        {
            let ghost before = self.books.state.db@;
            let ghost row = owned[i as int];
            proof {
                use_type_invariant(&self.books.state.db);
                lemma_index_of_row(owned, i as int);
                assert(find(owned, row.id) == find_kept(t0.books, owned_by(uid), row.id));
                lemma_index_of(owned.take(i as int), row.id);
                if let Some(j) = index_of(owned.take(i as int), row.id) {
                    assert(owned[j].id < owned[i as int].id);
                }
                assert(find(before.books, row.id) == find(t0.books, row.id));
            }
            match self.books.delete(owner_books[i].id) {
                Ok(_) => {},
                Err(source) => {
                    return Err(UserError::Book { source });
                },
            }
            proof {
                assert(owned.take(i + 1) =~= owned.take(i as int).push(row));
                assert forall|id: int| #[trigger]
                    find(self.books.state.db@.books, id) == if find(owned.take(i + 1), id)
                        is Some {
                        None
                    } else {
                        find(t0.books, id)
                    } by {
                    lemma_find_removed(before.books, row.id, id);
                    lemma_find_push(owned.take(i as int), row, id);
                    assert(find(before.books, id) == if find(owned.take(i as int), id) is Some {
                        None
                    } else {
                        find(t0.books, id)
                    });
                }
            }
            i += 1;
        }
        let ghost t1 = self.books.state.db@;
        proof {
            use_type_invariant(&self.books.state.db);
            assert(owned.take(i as int) =~= owned);
        }
        let current_holder_books = match self.books.find_all_by_current_holder(user_id) {
            Ok(books) => books,
            Err(source) => {
                return Err(UserError::Book { source });
            },
        };
        let ghost held = current_holder_books.deep_view();
        proof {
            lemma_find_filter(t1.books, held_by(uid));
            assert(held.take(0) =~= Seq::<BookView>::empty());
        }
        let mut k: usize = 0;
        while k < current_holder_books.len()
            invariant
                k <= current_holder_books.len(),
                held == current_holder_books.deep_view(),
                t1.wf(),
                uid == user_id as int,
                self.books.state.config == old(self).books.state.config,
                ascending(held),
                forall|id: int| #[trigger] find(held, id) == find_kept(t1.books, held_by(uid), id),
                self.books.state.db@.users == t1.users,
                self.books.state.db@.last_user_id == t1.last_user_id,
                self.books.state.db@.last_book_id == t1.last_book_id,
                forall|id: int| #[trigger]
                    find(self.books.state.db@.books, id) == match find(held.take(k as int), id) {
                        Some(b) => Some(released(b)),
                        None => find(t1.books, id),
                    },
            decreases current_holder_books.len() - k,
        {
            let ghost before = self.books.state.db@;
            let ghost row = held[k as int];
            let form = current_holder_books[k].released_form();
            proof {
                use_type_invariant(&self.books.state.db);
                lemma_index_of_row(held, k as int);
                assert(find(held, row.id) == find_kept(t1.books, held_by(uid), row.id));
                lemma_index_of(held.take(k as int), row.id);
                if let Some(j) = index_of(held.take(k as int), row.id) {
                    assert(held[j].id < held[k as int].id);
                }
                assert(find(before.books, row.id) == find(t1.books, row.id));
                lemma_index_of(before.books, row.id);
                let at = index_of(before.books, row.id)->0;
                assert(book_violation(before.users, before.books[at]) is None);
                assert(book_violation(before.users, released(row)) is None);
            }
            match self.books.update(current_holder_books[k].id, form) {
                Ok(_) => {},
                Err(source) => {
                    return Err(UserError::Book { source });
                },
            }
            proof {
                assert(held.take(k + 1) =~= held.take(k as int).push(row));
                assert forall|id: int| #[trigger]
                    find(self.books.state.db@.books, id) == match find(held.take(k + 1), id) {
                        Some(b) => Some(released(b)),
                        None => find(t1.books, id),
                    } by {
                    lemma_find_replaced(before.books, released(row), id);
                    lemma_find_push(held.take(k as int), row, id);
                    assert(find(before.books, id) == match find(held.take(k as int), id) {
                        Some(b) => Some(released(b)),
                        None => find(t1.books, id),
                    });
                }
            }
            k += 1;
        }
        let ghost t2 = self.books.state.db@;
        proof {
            use_type_invariant(&self.books.state.db);
            assert(held.take(k as int) =~= held);
            lemma_cascade_books(t0, uid);
            assert forall|id: int| find(t2.books, id) == find(cascade(t0, uid).books, id) by {
                assert(find(t2.books, id) == match find(held, id) {
                    Some(b) => Some(released(b)),
                    None => find(t1.books, id),
                });
                assert(find(held, id) == find_kept(t1.books, held_by(uid), id));
                assert(find(t1.books, id) == if find(owned, id) is Some {
                    None
                } else {
                    find(t0.books, id)
                });
                assert(find(owned, id) == find_kept(t0.books, owned_by(uid), id));
                assert(find(cascade(t0, uid).books, id) == book_after_cascade(t0, uid, id));
            }
            lemma_ascending_ext(t2.books, cascade(t0, uid).books);
        }
        match self.books.state.db.find_user_by_id(user_id) {
            None => {
                proof {
                    assert forall|id: int| find(cascade(t0, uid).books, id) == find(
                        t0.books,
                        id,
                    ) by {
                        assert(find(cascade(t0, uid).books, id) == book_after_cascade(
                            t0,
                            uid,
                            id,
                        ));
                        lemma_index_of(t0.books, id);
                        if let Some(at) = index_of(t0.books, id) {
                            assert(book_violation(t0.users, t0.books[at]) is None);
                        }
                    }
                    lemma_ascending_ext(cascade(t0, uid).books, t0.books);
                }
                Err(UserError::NotFound { id: user_id })
            },
            Some(_) => {
                proof {
                    assert forall|at: int| 0 <= at < t2.books.len() implies !crate::state::database::names(
                        #[trigger] t2.books[at],
                        uid,
                    ) by {
                        let b = t2.books[at];
                        lemma_index_of_row(t2.books, at);
                        assert(find(t2.books, b.id) == find(cascade(t0, uid).books, b.id));
                        assert(find(cascade(t0, uid).books, b.id) == book_after_cascade(
                            t0,
                            uid,
                            b.id,
                        ));
                    }
                }
                match self.books.state.db.delete_user(user_id) {
                    Ok(result) => Ok(result),
                    Err(source) => Err(UserError::DB { source }),
                }
            },
        }
    }
}

} // verus!
