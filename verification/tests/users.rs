use bookforge::models::book::{BookError, Model as Book};
use bookforge::models::user::{Model as User, UserError, UserOperator};
use bookforge::routes::book::BookForm;
use bookforge::routes::user::{IndexQuery, UserForm};
use bookforge::state::config::AppConfig;
use bookforge::state::database::{Database, DbErr, DeleteResult};
use bookforge::state::AppState;

/// Looks at every row: the tables are in order, no text that must not be
/// empty is, and every book names users that are there.
fn whole(db: &Database) -> bool {
    let users = db.users();
    let books = db.books();
    users.windows(2).all(|w| w[0].id < w[1].id)
        && books.windows(2).all(|w| w[0].id < w[1].id)
        && users.iter().all(|u| !u.name.is_empty() && u.id <= db.last_user_id())
        && books.iter().all(|b| {
            !b.title.is_empty()
                && !b.authors.is_empty()
                && b.id <= db.last_book_id()
                && users.iter().any(|u| u.id == b.owner_id)
                && b.current_holder_id.map_or(true, |h| users.iter().any(|u| u.id == h))
        })
}

fn user(id: i32, name: &str) -> User {
    User { id, name: name.to_string() }
}

fn book(id: i32, title: &str, owner_id: i32, holder: Option<i32>) -> Book {
    Book {
        id,
        title: title.to_string(),
        authors: "Someone".to_string(),
        description: Some("a description".to_string()),
        comment: Some("a comment".to_string()),
        owner_id,
        current_holder_id: holder,
    }
}

fn services(users: Vec<User>, books: Vec<Book>) -> UserOperator {
    let db = Database::from_rows(users, books).unwrap();
    UserOperator::new(AppState { config: AppConfig::with_defaults("users.sqlite".to_string()), db })
}

fn named(name: &str) -> UserForm {
    UserForm { name: name.to_string() }
}

#[test]
fn user_create_then_find_by_id() {
    let mut op = services(vec![], vec![]);
    let ann = op.create(named("Ann")).unwrap();
    let bob = op.create(named("Bob")).unwrap();
    assert_eq!(ann, user(1, "Ann"));
    assert_eq!(bob, user(2, "Bob"));
    assert_eq!(op.find_by_id(1), Ok(user(1, "Ann")));
    assert_eq!(op.find_by_id(2), Ok(user(2, "Bob")));
    assert_eq!(op.all().unwrap(), vec![user(1, "Ann"), user(2, "Bob")]);
}

#[test]
fn user_names_need_not_be_unique() {
    let mut op = services(vec![], vec![]);
    op.create(named("Ann")).unwrap();
    op.create(named("Ann")).unwrap();
    assert_eq!(op.all().unwrap(), vec![user(1, "Ann"), user(2, "Ann")]);
}

#[test]
fn user_create_refuses_an_empty_name() {
    let mut op = services(vec![], vec![]);
    assert_eq!(op.create(named("")), Err(UserError::DB { source: DbErr::Check }));
    assert!(op.all().unwrap().is_empty());
}

#[test]
fn user_find_by_id_of_a_missing_user_is_not_found() {
    let op = services(vec![user(1, "Ann")], vec![]);
    assert_eq!(op.find_by_id(2), Err(UserError::NotFound { id: 2 }));
}

#[test]
fn user_update_replaces_the_name() {
    let mut op = services(vec![user(1, "Ann"), user(2, "Bob")], vec![]);
    assert_eq!(op.update(2, named("Robert")), Ok(user(2, "Robert")));
    assert_eq!(op.find_by_id(2), Ok(user(2, "Robert")));
    assert_eq!(op.find_by_id(1), Ok(user(1, "Ann")));
}

#[test]
fn user_update_of_a_missing_user_is_not_found() {
    let mut op = services(vec![user(1, "Ann")], vec![]);
    assert_eq!(op.update(5, named("Eve")), Err(UserError::NotFound { id: 5 }));
    assert_eq!(op.update(5, named("")), Err(UserError::NotFound { id: 5 }));
    assert_eq!(op.update(1, named("")), Err(UserError::DB { source: DbErr::Check }));
    assert_eq!(op.all().unwrap(), vec![user(1, "Ann")]);
}

#[test]
fn user_list_filters_by_name_part() {
    let op = services(vec![user(1, "Ann"), user(2, "Bob"), user(3, "Joanna")], vec![]);
    let q = IndexQuery { name: Some("ann".to_string()) };
    assert_eq!(op.all_filtered(q).unwrap(), vec![user(3, "Joanna")]);
    let q = IndexQuery { name: Some("o".to_string()) };
    assert_eq!(op.all_filtered(q).unwrap(), vec![user(2, "Bob"), user(3, "Joanna")]);
    let q = IndexQuery { name: None };
    assert_eq!(op.all_filtered(q).unwrap().len(), 3);
    let q = IndexQuery { name: Some("Zed".to_string()) };
    assert!(op.all_filtered(q).unwrap().is_empty());
}

#[test]
fn deleting_a_user_cascades_to_their_books() {
    let mut op = services(
        vec![user(1, "Ann"), user(2, "Bob")],
        vec![book(10, "Dune", 1, Some(2)), book(11, "Emma", 2, Some(1))],
    );
    assert_eq!(op.delete(1), Ok(DeleteResult { rows_affected: 1 }));
    // the book they owned is gone
    assert_eq!(op.books.find_by_id(10), Err(BookError::NotFound { id: 10 }));
    // the book they held is back on its owner's shelf, otherwise as it was
    let kept = op.books.find_by_id(11).unwrap();
    assert_eq!(kept.current_holder_id, None);
    assert_eq!(kept, Book { current_holder_id: None, ..book(11, "Emma", 2, Some(1)) });
    // and so are they
    assert_eq!(op.find_by_id(1), Err(UserError::NotFound { id: 1 }));
    assert_eq!(op.all().unwrap(), vec![user(2, "Bob")]);
    assert!(whole(&op.books.state.db));
}

#[test]
fn deleting_a_user_who_holds_their_own_book_deletes_it() {
    let mut op = services(
        vec![user(1, "Ann"), user(2, "Bob")],
        vec![book(1, "Dune", 1, Some(1)), book(2, "Emma", 2, None), book(3, "Ulysses", 2, Some(2))],
    );
    op.delete(1).unwrap();
    assert_eq!(op.books.all().unwrap(), vec![book(3, "Ulysses", 2, Some(2)), book(2, "Emma", 2, None)]);
}

#[test]
fn deleting_a_user_leaves_the_others_alone() {
    let mut op = services(
        vec![user(1, "Ann"), user(2, "Bob"), user(3, "Cy")],
        vec![
            book(1, "A", 1, None),
            book(2, "B", 2, Some(3)),
            book(3, "C", 3, Some(2)),
            book(4, "D", 2, Some(1)),
            book(5, "E", 1, Some(2)),
            book(6, "F", 3, Some(1)),
        ],
    );
    op.delete(1).unwrap();
    assert_eq!(
        op.books.all().unwrap(),
        vec![
            Book { current_holder_id: None, ..book(6, "F", 3, Some(1)) },
            Book { current_holder_id: None, ..book(4, "D", 2, Some(1)) },
            book(3, "C", 3, Some(2)),
            book(2, "B", 2, Some(3)),
        ]
    );
    assert_eq!(op.all().unwrap(), vec![user(2, "Bob"), user(3, "Cy")]);
    assert!(op.books.find_all_by_owner(1).unwrap().is_empty());
    assert!(op.books.find_all_by_current_holder(1).unwrap().is_empty());
    assert!(whole(&op.books.state.db));
}

#[test]
fn deleting_a_missing_user_is_not_found_and_changes_nothing() {
    let mut op = services(
        vec![user(1, "Ann"), user(2, "Bob")],
        vec![book(10, "Dune", 1, Some(2))],
    );
    assert_eq!(op.delete(3), Err(UserError::NotFound { id: 3 }));
    assert_eq!(op.all().unwrap().len(), 2);
    assert_eq!(op.books.all().unwrap(), vec![book(10, "Dune", 1, Some(2))]);
    op.delete(2).unwrap();
    assert_eq!(op.delete(2), Err(UserError::NotFound { id: 2 }));
}

#[test]
fn every_service_call_keeps_the_references_whole() {
    let mut op = services(vec![], vec![]);
    op.create(named("Ann")).unwrap();
    op.create(named("Bob")).unwrap();
    op.create(named("Cy")).unwrap();
    let form = |title: &str, owner_id: i32, holder: Option<i32>| BookForm {
        title: title.to_string(),
        authors: "Someone".to_string(),
        owner_id,
        description: None,
        comment: None,
        current_holder_id: holder,
    };
    op.books.create(form("A", 1, Some(2))).unwrap();
    op.books.create(form("B", 2, Some(1))).unwrap();
    op.books.create(form("C", 3, Some(3))).unwrap();
    assert!(whole(&op.books.state.db));
    op.books.update(1, form("A2", 3, None)).unwrap();
    assert!(whole(&op.books.state.db));
    assert!(op.books.update(1, form("A3", 4, None)).is_err());
    assert!(whole(&op.books.state.db));
    op.delete(3).unwrap();
    assert!(whole(&op.books.state.db));
    let users = op.all().unwrap();
    for b in op.books.all().unwrap() {
        assert!(users.iter().any(|u| u.id == b.owner_id));
        if let Some(h) = b.current_holder_id {
            assert!(users.iter().any(|u| u.id == h));
        }
    }
    assert_eq!(op.books.all().unwrap().len(), 1);
}

#[test]
fn user_error_messages() {
    assert_eq!(UserError::NotFound { id: 3 }.message(), "User with id 3 not found");
    assert_eq!(UserError::DB { source: DbErr::ForeignKey }.message(), "Database error");
    assert_eq!(
        UserError::Book { source: BookError::NotFound { id: 1 } }.message(),
        "Book error"
    );
}
