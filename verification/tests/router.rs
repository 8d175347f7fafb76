use bookforge::routes::router::Router;
use bookforge::routes::template_ctx::TemplateCtx;

fn router(base: &str) -> Router {
    Router { base_path: base.to_string() }
}

#[test]
fn asset_under_empty_base_is_under_root() {
    assert_eq!(router("").assets("app.css"), "/app.css");
}

#[test]
fn asset_under_root_base_is_under_root() {
    assert_eq!(router("/").assets("app.css"), "/app.css");
}

#[test]
fn asset_under_base_drops_trailing_slashes() {
    assert_eq!(router("/library//").assets("app.css"), "/library/app.css");
    assert_eq!(router("/library").assets("img/logo.png"), "/library/img/logo.png");
}

#[test]
fn template_ctx_asset_is_router_asset() {
    let ctx = TemplateCtx { base_path: "/library/".to_string() };
    assert_eq!(ctx.asset("app.css"), "/library/app.css");
    let ctx = TemplateCtx { base_path: String::new() };
    assert_eq!(ctx.asset("app.css"), "/app.css");
}

#[test]
fn book_paths() {
    let r = router("/lib");
    assert_eq!(r.root_path(), "/lib/");
    assert_eq!(r.new_book_path(), "/lib/books/new");
    assert_eq!(r.create_book_path(), "/lib/books");
    assert_eq!(r.update_book_path(&42), "/lib/books/42");
    assert_eq!(r.update_book_path(&-7), "/lib/books/-7");
    assert_eq!(r.update_book_path(&i32::MIN), "/lib/books/-2147483648");
    assert_eq!(r.update_book_path(&i32::MAX), "/lib/books/2147483647");
    assert_eq!(r.update_book_path(&0), "/lib/books/0");
    assert_eq!(r.download_csv_book_path(), "/lib/books/download_csv");
}

#[test]
fn user_paths() {
    let r = router("");
    assert_eq!(r.index_user_path(), "/users");
    assert_eq!(r.new_user_path(), "/users/new");
    assert_eq!(r.create_user_path(), "/users");
    assert_eq!(r.update_user_path(&1005), "/users/1005");
}
