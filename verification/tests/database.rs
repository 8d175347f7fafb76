use bookforge::models::book::{Condition, Expr, Model as Book, Order};
use bookforge::models::user::{Condition as UserCondition, Expr as UserExpr, Model as User};
use bookforge::routes::book::BookForm;
use bookforge::routes::user::UserForm;
use bookforge::state::database::{Database, DbErr, DeleteResult};

/// Looks at every row: the tables are in order, no text that must not be
/// empty is, and every book names users that are there.
fn whole(db: &Database) -> bool {
    let users = db.users();
    let books = db.books();
    users.windows(2).all(|w| w[0].id < w[1].id)
        && books.windows(2).all(|w| w[0].id < w[1].id)
        && users.iter().all(|u| !u.name.is_empty() && u.id <= db.last_user_id())
        && books.iter().all(|b| {
            !b.title.is_empty()
                && !b.authors.is_empty()
                && b.id <= db.last_book_id()
                && users.iter().any(|u| u.id == b.owner_id)
                && b.current_holder_id.map_or(true, |h| users.iter().any(|u| u.id == h))
        })
}

fn user(id: i32, name: &str) -> User {
    User { id, name: name.to_string() }
}

fn book(id: i32, title: &str, owner_id: i32, holder: Option<i32>) -> Book {
    Book {
        id,
        title: title.to_string(),
        authors: "Someone".to_string(),
        description: None,
        comment: None,
        owner_id,
        current_holder_id: holder,
    }
}

fn form(title: &str, owner_id: i32, holder: Option<i32>) -> BookForm {
    BookForm {
        title: title.to_string(),
        authors: "Someone".to_string(),
        owner_id,
        description: None,
        comment: None,
        current_holder_id: holder,
    }
}

#[test]
fn new_store_is_empty_and_well_formed() {
    let db = Database::new();
    assert!(whole(&db));
    assert!(db.users().is_empty());
    assert!(db.books().is_empty());
    assert_eq!(db.last_user_id(), 0);
    assert_eq!(db.last_book_id(), 0);
}

#[test]
fn from_rows_takes_rows_in_order() {
    let db = Database::from_rows(
        vec![user(1, "Ann"), user(4, "Bob")],
        vec![book(10, "Dune", 1, Some(4)), book(11, "Emma", 4, None)],
    )
    .unwrap();
    assert!(whole(&db));
    assert_eq!(db.last_user_id(), 4);
    assert_eq!(db.last_book_id(), 11);
    assert_eq!(db.users(), &vec![user(1, "Ann"), user(4, "Bob")]);
    assert_eq!(db.find_book_by_id(10), Some(book(10, "Dune", 1, Some(4))));
    assert_eq!(db.find_book_by_id(12), None);
    assert_eq!(db.find_user_by_id(4), Some(user(4, "Bob")));
    assert_eq!(db.find_user_by_id(2), None);
}

#[test]
fn from_rows_refuses_rows_out_of_order() {
    let r = Database::from_rows(vec![user(2, "Ann"), user(1, "Bob")], vec![]);
    assert_eq!(r.err(), Some(DbErr::PrimaryKey));
    let r = Database::from_rows(vec![user(1, "Ann"), user(1, "Bob")], vec![]);
    assert_eq!(r.err(), Some(DbErr::PrimaryKey));
    let r = Database::from_rows(
        vec![user(1, "Ann")],
        vec![book(5, "Dune", 1, None), book(5, "Emma", 1, None)],
    );
    assert_eq!(r.err(), Some(DbErr::PrimaryKey));
}

#[test]
fn from_rows_refuses_empty_texts() {
    let r = Database::from_rows(vec![user(1, "")], vec![]);
    assert_eq!(r.err(), Some(DbErr::Check));
    let r = Database::from_rows(vec![user(1, "Ann")], vec![book(1, "", 1, None)]);
    assert_eq!(r.err(), Some(DbErr::Check));
    let mut b = book(1, "Dune", 1, None);
    b.authors = String::new();
    let r = Database::from_rows(vec![user(1, "Ann")], vec![b]);
    assert_eq!(r.err(), Some(DbErr::Check));
}

#[test]
fn from_rows_refuses_books_that_name_nobody() {
    let r = Database::from_rows(vec![user(1, "Ann")], vec![book(1, "Dune", 2, None)]);
    assert_eq!(r.err(), Some(DbErr::ForeignKey));
    let r = Database::from_rows(vec![user(1, "Ann")], vec![book(1, "Dune", 1, Some(3))]);
    assert_eq!(r.err(), Some(DbErr::ForeignKey));
}

#[test]
fn from_rows_names_the_first_kind_of_fault() {
    // out of order and an empty name: the order is reported
    let r = Database::from_rows(vec![user(2, ""), user(1, "Bob")], vec![]);
    assert_eq!(r.err(), Some(DbErr::PrimaryKey));
    // an empty title and a missing owner: the text is reported
    let r = Database::from_rows(vec![user(1, "Ann")], vec![book(1, "", 9, None)]);
    assert_eq!(r.err(), Some(DbErr::Check));
}

#[test]
fn insert_user_hands_out_the_next_identifier() {
    let mut db = Database::new();
    let a = db.insert_user(&UserForm { name: "Ann".to_string() }).unwrap();
    let b = db.insert_user(&UserForm { name: "Bob".to_string() }).unwrap();
    assert_eq!(a, user(1, "Ann"));
    assert_eq!(b, user(2, "Bob"));
    assert_eq!(db.last_user_id(), 2);
    assert!(whole(&db));
}

#[test]
fn identifiers_are_not_handed_out_twice() {
    let mut db = Database::new();
    db.insert_user(&UserForm { name: "Ann".to_string() }).unwrap();
    db.insert_user(&UserForm { name: "Bob".to_string() }).unwrap();
    assert_eq!(db.delete_user(2), Ok(DeleteResult { rows_affected: 1 }));
    let c = db.insert_user(&UserForm { name: "Cy".to_string() }).unwrap();
    assert_eq!(c.id, 3);
}

#[test]
fn insert_user_refuses_an_empty_name() {
    let mut db = Database::new();
    assert_eq!(db.insert_user(&UserForm { name: String::new() }), Err(DbErr::Check));
    assert!(db.users().is_empty());
    assert_eq!(db.last_user_id(), 0);
}

#[test]
fn insert_refuses_when_identifiers_are_exhausted() {
    let mut db = Database::from_rows(
        vec![user(i32::MAX, "Last")],
        vec![book(i32::MAX, "Omega", i32::MAX, None)],
    )
    .unwrap();
    assert_eq!(db.insert_user(&UserForm { name: "More".to_string() }), Err(DbErr::IdExhausted));
    assert_eq!(db.insert_book(&form("More", i32::MAX, None)), Err(DbErr::IdExhausted));
    assert_eq!(db.users().len(), 1);
    assert_eq!(db.books().len(), 1);
    // a broken constraint is reported before the exhausted identifiers
    assert_eq!(db.insert_user(&UserForm { name: String::new() }), Err(DbErr::Check));
    assert_eq!(db.insert_book(&form("More", 1, None)), Err(DbErr::ForeignKey));
}

#[test]
fn update_of_a_missing_row_is_not_an_update() {
    let mut db = Database::from_rows(vec![user(1, "Ann")], vec![]).unwrap();
    assert_eq!(
        db.update_user(2, &UserForm { name: "Bob".to_string() }),
        Err(DbErr::RecordNotUpdated)
    );
    assert_eq!(db.update_book(1, &form("Dune", 1, None)), Err(DbErr::RecordNotUpdated));
    // the missing row is reported before a broken constraint
    assert_eq!(db.update_user(2, &UserForm { name: String::new() }), Err(DbErr::RecordNotUpdated));
    assert_eq!(db.update_book(1, &form("", 7, None)), Err(DbErr::RecordNotUpdated));
}

#[test]
fn update_user_replaces_the_name_in_place() {
    let mut db = Database::from_rows(vec![user(1, "Ann"), user(2, "Bob")], vec![]).unwrap();
    let r = db.update_user(1, &UserForm { name: "Anna".to_string() });
    assert_eq!(r, Ok(user(1, "Anna")));
    assert_eq!(db.users(), &vec![user(1, "Anna"), user(2, "Bob")]);
    assert_eq!(db.update_user(1, &UserForm { name: String::new() }), Err(DbErr::Check));
    assert_eq!(db.users(), &vec![user(1, "Anna"), user(2, "Bob")]);
}

#[test]
fn delete_user_is_refused_while_a_book_names_them() {
    let mut db = Database::from_rows(
        vec![user(1, "Ann"), user(2, "Bob")],
        vec![book(1, "Dune", 1, Some(2))],
    )
    .unwrap();
    assert_eq!(db.delete_user(1), Err(DbErr::ForeignKey));
    assert_eq!(db.delete_user(2), Err(DbErr::ForeignKey));
    assert_eq!(db.users().len(), 2);
    assert_eq!(db.delete_book(1), DeleteResult { rows_affected: 1 });
    assert_eq!(db.delete_user(2), Ok(DeleteResult { rows_affected: 1 }));
    assert_eq!(db.delete_user(2), Ok(DeleteResult { rows_affected: 0 }));
    assert_eq!(db.users(), &vec![user(1, "Ann")]);
    assert!(whole(&db));
}

#[test]
fn delete_book_of_a_missing_row_affects_nothing() {
    let mut db =
        Database::from_rows(vec![user(1, "Ann")], vec![book(3, "Dune", 1, None)]).unwrap();
    assert_eq!(db.delete_book(4), DeleteResult { rows_affected: 0 });
    assert_eq!(db.books().len(), 1);
}

#[test]
fn find_books_filters_and_orders() {
    let db = Database::from_rows(
        vec![user(1, "Ann"), user(2, "Bob")],
        vec![
            book(1, "Dune", 1, None),
            book(2, "Dune Messiah", 2, Some(1)),
            book(3, "Emma", 1, Some(2)),
        ],
    )
    .unwrap();
    let all = Condition { all: vec![] };
    let ids = |v: Vec<Book>| v.iter().map(|b| b.id).collect::<Vec<i32>>();
    assert_eq!(ids(db.find_books(&all, Order::Asc)), vec![1, 2, 3]);
    assert_eq!(ids(db.find_books(&all, Order::Desc)), vec![3, 2, 1]);
    let dune = Condition { all: vec![Expr::TitleContains("Dune".to_string())] };
    assert_eq!(ids(db.find_books(&dune, Order::Desc)), vec![2, 1]);
    let dune_of_ann =
        Condition { all: vec![Expr::TitleContains("Dune".to_string()), Expr::OwnerIdEq(1)] };
    assert_eq!(ids(db.find_books(&dune_of_ann, Order::Asc)), vec![1]);
    let held_by_ann = Condition { all: vec![Expr::CurrentHolderIdEq(1)] };
    assert_eq!(ids(db.find_books(&held_by_ann, Order::Asc)), vec![2]);
    let by_someone = Condition { all: vec![Expr::AuthorsContains("one".to_string())] };
    assert_eq!(ids(db.find_books(&by_someone, Order::Asc)), vec![1, 2, 3]);
    let nobody = Condition { all: vec![Expr::AuthorsContains("Nobody".to_string())] };
    assert_eq!(ids(db.find_books(&nobody, Order::Asc)), Vec::<i32>::new());
}

#[test]
fn find_users_filters_by_name() {
    let db =
        Database::from_rows(vec![user(1, "Ann"), user(2, "Bob"), user(3, "Joann")], vec![])
            .unwrap();
    let ann = UserCondition { all: vec![UserExpr::NameContains("ann".to_string())] };
    assert_eq!(db.find_users(&ann), vec![user(3, "Joann")]);
    let nn = UserCondition { all: vec![UserExpr::NameContains("nn".to_string())] };
    assert_eq!(db.find_users(&nn), vec![user(1, "Ann"), user(3, "Joann")]);
    let all = UserCondition { all: vec![] };
    assert_eq!(db.find_users(&all).len(), 3);
}
