use bookforge::models::book::{BookError, Model as Book};
use bookforge::models::user::{Model as User, UserError, UserOperator};
use bookforge::routes::book::{
    base_query, create as create_book, delete as delete_book, edit as edit_book, find_holder,
    find_user, index as book_index, join_users, new as new_book, show, update as update_book,
    users_by_id, BookForm, BookWithUser, IndexQuery,
};
use bookforge::routes::user::{
    count_by_holder, count_by_owner, count_of, create as create_user, delete as delete_user,
    edit as edit_user, index as user_index, new as new_user, update as update_user,
    IndexQuery as UserQuery, NewTemplate, UserForm, UserWithBookNumber,
};
use bookforge::state::config::AppConfig;
use bookforge::state::database::{Database, DbErr};
use bookforge::state::error::AppStateError;
use bookforge::state::AppState;

fn user(id: i32, name: &str) -> User {
    User { id, name: name.to_string() }
}

fn book(id: i32, title: &str, owner_id: i32, holder: Option<i32>) -> Book {
    Book {
        id,
        title: title.to_string(),
        authors: "Someone".to_string(),
        description: None,
        comment: None,
        owner_id,
        current_holder_id: holder,
    }
}

fn form(title: &str, owner_id: i32, holder: Option<i32>) -> BookForm {
    BookForm {
        title: title.to_string(),
        authors: "Someone".to_string(),
        owner_id,
        description: None,
        comment: None,
        current_holder_id: holder,
    }
}

fn services(users: Vec<User>, books: Vec<Book>) -> UserOperator {
    let db = Database::from_rows(users, books).unwrap();
    let mut config = AppConfig::with_defaults("pages.sqlite".to_string());
    config.base_path = "/library".to_string();
    UserOperator::new(AppState { config, db })
}

fn no_query() -> IndexQuery {
    IndexQuery { title: None, page: None, authors: None, owner_id: None, current_holder_id: None }
}

fn town() -> UserOperator {
    services(
        vec![user(1, "Ann"), user(2, "Bob"), user(3, "Cy")],
        vec![
            book(1, "Dune", 1, None),
            book(2, "Emma", 2, Some(1)),
            book(3, "Ulysses", 2, Some(3)),
            book(4, "Dune Messiah", 1, Some(2)),
        ],
    )
}

#[test]
fn book_index_joins_each_book_with_its_users() {
    let op = town();
    let page = book_index(&op, no_query()).unwrap();
    assert_eq!(page.current_page, 1);
    assert_eq!(page.total_page, 1);
    assert_eq!(page.users, vec![user(1, "Ann"), user(2, "Bob"), user(3, "Cy")]);
    assert_eq!(page.base_query, "");
    assert_eq!(page.router.base_path, "/library");
    assert_eq!(page.query, no_query());
    assert_eq!(
        page.books_with_user,
        vec![
            BookWithUser {
                book: book(4, "Dune Messiah", 1, Some(2)),
                owner: user(1, "Ann"),
                current_holder: Some(user(2, "Bob")),
            },
            BookWithUser {
                book: book(3, "Ulysses", 2, Some(3)),
                owner: user(2, "Bob"),
                current_holder: Some(user(3, "Cy")),
            },
            BookWithUser {
                book: book(2, "Emma", 2, Some(1)),
                owner: user(2, "Bob"),
                current_holder: Some(user(1, "Ann")),
            },
            BookWithUser { book: book(1, "Dune", 1, None), owner: user(1, "Ann"), current_holder: None },
        ]
    );
}

#[test]
fn book_index_filters_and_keeps_the_query_for_the_links() {
    let op = town();
    let q = IndexQuery {
        title: Some("Dune".to_string()),
        page: Some(1),
        authors: None,
        owner_id: Some(1),
        current_holder_id: Some(2),
    };
    let page = book_index(&op, q.clone()).unwrap();
    assert_eq!(page.books_with_user.len(), 1);
    assert_eq!(page.books_with_user[0].book.id, 4);
    assert_eq!(page.base_query, "title=Dune&owner_id=1&current_holder_id=2&");
    assert_eq!(page.query, q);
}

#[test]
fn book_index_takes_a_page_below_one_for_the_first() {
    let op = town();
    let zero = book_index(&op, IndexQuery { page: Some(0), ..no_query() }).unwrap();
    let one = book_index(&op, IndexQuery { page: Some(1), ..no_query() }).unwrap();
    let none = book_index(&op, no_query()).unwrap();
    assert_eq!(zero.current_page, 1);
    assert_eq!(zero.books_with_user, one.books_with_user);
    assert_eq!(none.books_with_user, one.books_with_user);
    let far = book_index(&op, IndexQuery { page: Some(9), ..no_query() }).unwrap();
    assert_eq!(far.current_page, 9);
    assert_eq!(far.total_page, 1);
    assert!(far.books_with_user.is_empty());
}

#[test]
fn base_query_names_each_column_given() {
    assert_eq!(base_query(&no_query()), "");
    let q = IndexQuery {
        title: Some("the hobbit".to_string()),
        page: Some(3),
        authors: Some("Tolkien".to_string()),
        owner_id: Some(12),
        current_holder_id: Some(-4),
    };
    assert_eq!(
        base_query(&q),
        "title=the hobbit&authors=Tolkien&owner_id=12&current_holder_id=-4&"
    );
    let q = IndexQuery { authors: Some("Austen".to_string()), ..no_query() };
    assert_eq!(base_query(&q), "authors=Austen&");
}

#[test]
fn join_leaves_out_a_book_whose_owner_is_no_user() {
    let users = vec![user(1, "Ann")];
    let books = vec![book(1, "Dune", 1, Some(2)), book(2, "Emma", 2, Some(1))];
    let joined = join_users(&books, &users);
    assert_eq!(
        joined,
        vec![BookWithUser {
            book: book(1, "Dune", 1, Some(2)),
            owner: user(1, "Ann"),
            current_holder: None,
        }]
    );
}

#[test]
fn lookup_among_users_takes_the_last_of_a_kind() {
    let users = users_by_id(&vec![user(1, "Ann"), user(2, "Bob"), user(1, "Anna")]);
    assert_eq!(users.len(), 2);
    assert_eq!(find_user(&users, 1), Some(user(1, "Anna")));
    assert_eq!(find_user(&users, 2), Some(user(2, "Bob")));
    assert_eq!(find_user(&users, 3), None);
    assert_eq!(find_holder(&users, &book(1, "Dune", 2, Some(1))), Some(user(1, "Anna")));
    assert_eq!(find_holder(&users, &book(1, "Dune", 2, None)), None);
    assert_eq!(find_holder(&users, &book(1, "Dune", 2, Some(9))), None);
    assert!(users_by_id(&vec![]).is_empty());
}

#[test]
fn show_gives_the_book_with_owner_and_holder() {
    let op = town();
    let page = show(&op, 2).unwrap();
    assert_eq!(page.book, book(2, "Emma", 2, Some(1)));
    assert_eq!(page.owner, user(2, "Bob"));
    assert_eq!(page.current_holder, Some(user(1, "Ann")));
    assert_eq!(page.router.base_path, "/library");
    let page = show(&op, 1).unwrap();
    assert_eq!(page.current_holder, None);
}

#[test]
fn show_of_a_missing_book_is_not_found() {
    let op = town();
    let e = show(&op, 9).unwrap_err();
    assert!(matches!(e, AppStateError::Book { source: BookError::NotFound { id: 9 } }));
    assert_eq!(e.message(), "Book Model Error");
}

#[test]
fn new_and_edit_book_forms_list_every_user() {
    let op = town();
    let page = new_book(&op).unwrap();
    assert_eq!(page.users.len(), 3);
    assert_eq!(page.router.base_path, "/library");
    let page = edit_book(&op, 3).unwrap();
    assert_eq!(page.users.len(), 3);
    assert_eq!(page.book, book(3, "Ulysses", 2, Some(3)));
    let e = edit_book(&op, 30).unwrap_err();
    assert!(matches!(e, AppStateError::Book { source: BookError::NotFound { id: 30 } }));
}

#[test]
fn book_writes_send_the_browser_on() {
    let mut op = town();
    assert_eq!(create_book(&mut op, form("Persuasion", 3, None)).unwrap().to, "/");
    assert_eq!(op.books.find_by_id(5).unwrap().title, "Persuasion");
    assert_eq!(update_book(&mut op, 5, form("Pride", 3, Some(1))).unwrap().to, "/books/5");
    assert_eq!(op.books.find_by_id(5).unwrap().title, "Pride");
    assert_eq!(delete_book(&mut op, 5).unwrap().to, "/");
    assert!(op.books.find_by_id(5).is_err());
}

#[test]
fn book_writes_pass_the_refusal_on() {
    let mut op = town();
    let e = create_book(&mut op, form("", 3, None)).unwrap_err();
    assert!(matches!(e, AppStateError::Book { source: BookError::DB { source: DbErr::Check } }));
    let e = update_book(&mut op, 77, form("Pride", 3, None)).unwrap_err();
    assert!(matches!(e, AppStateError::Book { source: BookError::NotFound { id: 77 } }));
    let e = update_book(&mut op, 1, form("Pride", 8, None)).unwrap_err();
    assert!(matches!(
        e,
        AppStateError::Book { source: BookError::DB { source: DbErr::ForeignKey } }
    ));
    let e = delete_book(&mut op, 77).unwrap_err();
    assert!(matches!(e, AppStateError::Book { source: BookError::NotFound { id: 77 } }));
    assert_eq!(op.books.all().unwrap().len(), 4);
}

#[test]
fn user_index_counts_the_books_of_each_user() {
    let op = town();
    let page = user_index(&op, UserQuery { name: None }).unwrap();
    assert_eq!(
        page.users_with_books_number,
        vec![
            UserWithBookNumber { user: user(1, "Ann"), owner_book_number: 2, borrowed_book_number: 1 },
            UserWithBookNumber { user: user(2, "Bob"), owner_book_number: 2, borrowed_book_number: 1 },
            UserWithBookNumber { user: user(3, "Cy"), owner_book_number: 0, borrowed_book_number: 1 },
        ]
    );
    let page = user_index(&op, UserQuery { name: Some("y".to_string()) }).unwrap();
    assert_eq!(
        page.users_with_books_number,
        vec![UserWithBookNumber { user: user(3, "Cy"), owner_book_number: 0, borrowed_book_number: 1 }]
    );
    assert_eq!(page.query, UserQuery { name: Some("y".to_string()) });
}

#[test]
fn counts_of_owned_and_held_books() {
    let books = vec![
        book(1, "A", 1, Some(1)),
        book(2, "B", 1, None),
        book(3, "C", 2, Some(1)),
        book(4, "D", 1, Some(2)),
    ];
    let owned = count_by_owner(&books);
    assert_eq!(count_of(&owned, 1), 3);
    assert_eq!(count_of(&owned, 2), 1);
    assert_eq!(count_of(&owned, 3), 0);
    assert_eq!(owned.len(), 2);
    let held = count_by_holder(&books);
    assert_eq!(count_of(&held, 1), 2);
    assert_eq!(count_of(&held, 2), 1);
    assert_eq!(count_of(&held, 3), 0);
    assert_eq!(held.len(), 2);
    assert_eq!(count_of(&count_by_owner(&vec![]), 1), 0);
    assert!(count_by_holder(&vec![book(1, "A", 1, None)]).is_empty());
}

#[test]
fn user_writes_send_the_browser_to_the_user_list() {
    let mut op = town();
    assert_eq!(create_user(&mut op, UserForm { name: "Dee".to_string() }).unwrap().to, "/users");
    assert_eq!(op.find_by_id(4), Ok(user(4, "Dee")));
    assert_eq!(update_user(&mut op, 4, UserForm { name: "Di".to_string() }).unwrap().to, "/users");
    assert_eq!(op.find_by_id(4), Ok(user(4, "Di")));
    assert_eq!(delete_user(&mut op, 1).unwrap().to, "/users");
    assert!(op.find_by_id(1).is_err());
    assert_eq!(op.books.all().unwrap().len(), 2);
    assert_eq!(op.books.find_by_id(2).unwrap().current_holder_id, None);
}

#[test]
fn user_writes_pass_the_refusal_on() {
    let mut op = town();
    let e = create_user(&mut op, UserForm { name: String::new() }).unwrap_err();
    assert!(matches!(e, AppStateError::User { source: UserError::DB { source: DbErr::Check } }));
    assert_eq!(e.message(), "User Model Error");
    let e = update_user(&mut op, 8, UserForm { name: "Eve".to_string() }).unwrap_err();
    assert!(matches!(e, AppStateError::User { source: UserError::NotFound { id: 8 } }));
    let e = delete_user(&mut op, 8).unwrap_err();
    assert!(matches!(e, AppStateError::User { source: UserError::NotFound { id: 8 } }));
}

#[test]
fn user_forms() {
    let op = town();
    assert_eq!(edit_user(&op, 2).unwrap().user, user(2, "Bob"));
    let e = edit_user(&op, 20).unwrap_err();
    assert!(matches!(e, AppStateError::User { source: UserError::NotFound { id: 20 } }));
    assert_eq!(new_user(), NewTemplate {});
}
