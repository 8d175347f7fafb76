use bookforge::state::api_config::ApiConfig;
use bookforge::state::config::AppConfig;
use bookforge::state::listener::Listener;

#[test]
fn listener_defaults() {
    let l = Listener::default();
    assert_eq!(l.port, 8000);
    assert_eq!(l.bind_addr, "0.0.0.0");
    assert_eq!(Listener::default_port(), 8000);
    assert_eq!(Listener::default_bind_addr(), "0.0.0.0");
}

#[test]
fn listener_address_is_interface_colon_port() {
    assert_eq!(Listener::default().socket_addr(), "0.0.0.0:8000");
    let l = Listener { port: 80, bind_addr: "127.0.0.1".to_string() };
    assert_eq!(l.socket_addr(), "127.0.0.1:80");
    let l = Listener { port: u32::MAX, bind_addr: "::".to_string() };
    assert_eq!(l.socket_addr(), ":::4294967295");
    let l = Listener { port: 0, bind_addr: String::new() };
    assert_eq!(l.socket_addr(), ":0");
}

#[test]
fn api_config_default_has_no_key() {
    assert_eq!(ApiConfig::default().google_books_api_key, "");
}

#[test]
fn app_config_defaults() {
    let c = AppConfig::with_defaults("/home/ann/.config/bookforge/db.sqlite".to_string());
    assert_eq!(c.database_path, "/home/ann/.config/bookforge/db.sqlite");
    assert_eq!(c.locale, "en");
    assert_eq!(c.base_path, "");
    assert_eq!(c.listener, Listener::default());
    assert_eq!(c.api_config, ApiConfig::default());
    assert_eq!(AppConfig::default_locale(), "en");
    assert_eq!(AppConfig::default_base_path(), "");
}
